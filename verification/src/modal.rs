//! Shared docked dialog chrome and state. Lists and the dialogs of extensions
//! use the same borders, selection rows and keyboard hints.
use crate::dialog::{cancelled_tree, value_tree};
use crate::display::{less, minus};
use crate::draft::flat;
use crate::json::{add_field, fields_view, object, text, Json, Tree};
use crate::keys::Navigation;
use crate::lines::{lines, rows, split_lines, texts};
use crate::number::{decimal, decimal_text};
use crate::picker::{saturated, thumb_of, visible_of, Picker, PickerView};
use crate::text::{
    cat2, cat3, cat4, cat5, chars_of, clean, control, copy, extend_text, find_char, first_n,
    index_of, is_control, lemma_clean_text, pad, repeated, same, spaced, starts, starts_text, text_of,
    without_controls,
};
use crate::utf8::{push_byte, pushed};
use vstd::prelude::*;
use vstd::slice::slice_subrange;
use vstd::utf8::encode_utf8;

verus! {

pub const BORDER: &'static str = "38;2;184;57;101";

pub const TITLE: &'static str = "1;38;2;236;74;125";

pub const SELECTED: &'static str = "1;38;2;255;155;187;48;2;77;27;51";

pub const TEXT: &'static str = "38;2;255;220;230";

/// How long a dialog may be open at most, in milliseconds.
pub const MAX_TIMEOUT: u64 = 86_400_000;

/// How long an approval is open, in milliseconds, where nothing else is said.
pub const APPROVAL_TIMEOUT: u64 = 60_000;

pub const MAX_DETAILS: usize = 16_384;

pub const MAX_TEXT: usize = 8192;

pub const MAX_OPTIONS: usize = 1000;

/// A row of a panel, and its style.
pub struct Row {
    pub text: String,
    pub style: &'static str,
}

/// What a [`Row`] holds.
#[verifier::ext_equal]
pub struct RowView {
    pub text: Seq<char>,
    pub style: Seq<char>,
}

impl View for Row {
    type V = RowView;

    open spec fn view(&self) -> RowView {
        RowView { text: self.text@, style: self.style@ }
    }
}

pub open spec fn row_views(rows: Seq<Row>) -> Seq<RowView> {
    Seq::new(rows.len(), |i: int| rows[i]@)
}

// ---------------------------------------------------------------------------
// Panels
// ---------------------------------------------------------------------------

/// A text without controls, within `width` columns.
pub open spec fn clip_of(text: Seq<char>, width: nat) -> Seq<char> {
    let text = without_controls(text);
    if text.len() <= width {
        text
    } else if width == 0 {
        ""@
    } else {
        first_n(text, (width - 1) as nat) + "…"@
    }
}

/// A row between the borders of a panel.
pub open spec fn inner_of(text: Seq<char>, width: nat, style: Seq<char>, edge: Seq<char>) -> RowView {
    let text = clip_of(text, less(width, 4));
    RowView {
        text: "│ "@ + text + repeated(' ', less(width, 4 + text.len())) + " "@ + edge,
        style,
    }
}

/// A panel with a title, a body and a hint.
pub open spec fn panel_of(title: Seq<char>, body: Seq<RowView>, hint: Seq<char>, width: nat) -> Seq<
    RowView,
> {
    let title = clip_of("✿ "@ + title, less(width, 5));
    let head = RowView {
        text: "╭─ "@ + title + " "@ + repeated('─', less(width, title.len() + 5)) + "╮"@,
        style: TITLE@,
    };
    let foot = RowView { text: "╰"@ + repeated('─', less(width, 2)) + "╯"@, style: BORDER@ };
    (seq![head] + body).push(inner_of(hint, width, BORDER@, "│"@)).push(foot)
}

/// The row of the `line`th visible item.
pub open spec fn choice_row(p: PickerView, line: int, width: nat, height: nat) -> RowView {
    let visible = visible_of(p.items.len(), height);
    let index = p.first + line;
    let suffix = if p.current == Some(index as usize) {
        "  ● current"@
    } else {
        ""@
    };
    let label = clip_of(p.items[index], less(width, 6 + suffix.len()));
    inner_of(
        (if index == p.selected {
            "❯"@
        } else {
            " "@
        }) + " "@ + label + suffix,
        width,
        if index == p.selected {
            SELECTED@
        } else {
            TEXT@
        },
        if p.items.len() > visible && line == thumb_of(p.items.len(), p.first as nat, height) {
            "█"@
        } else {
            "│"@
        },
    )
}

/// The visible items.
pub open spec fn choices_of(p: PickerView, width: nat, height: nat) -> Seq<RowView> {
    Seq::new(visible_of(p.items.len(), height), |line: int| choice_row(p, line, width, height))
}

/// The panel of a list.
pub open spec fn picker_panel_of(p: PickerView, width: nat, height: nat, suggestions: bool) -> Seq<
    RowView,
> {
    let hint = (if suggestions {
        "↑↓ choose · Tab complete · Enter run · Esc dismiss"@
    } else {
        "↑↓ move · Enter select · Esc cancel"@
    }) + "   "@ + decimal((p.selected + 1) as nat) + "/"@ + decimal(p.items.len());
    panel_of(p.title, choices_of(p, width, less(height, 3)), hint, width)
}

fn clip(text: &str, width: usize) -> (out: String)
    ensures
        out@ == clip_of(text@, width as nat),
{
    let text = clean(text);
    let chars = chars_of(text.as_str());
    if chars.len() <= width {
        text
    } else if width == 0 {
        copy("")
    } else {
        let part = slice_subrange(chars.as_slice(), 0, width - 1);
        assert(part@ =~= first_n(chars@, (width - 1) as nat));
        cat2(text_of(part).as_str(), "…")
    }
}

fn inner(text: &str, width: usize, style: &'static str, edge: &'static str) -> (r: Row)
    ensures
        r@ == inner_of(text@, width as nat, style@, edge@),
{
    let text = clip(text, minus(width, 4));
    let len: usize = chars_of(text.as_str()).len();
    let mut row = cat2("│ ", text.as_str());
    let room: usize = minus(minus(width, 4), len);
    assert(room == less(width as nat, 4 + len as nat));
    pad(&mut row, ' ', room);
    row.append(" ");
    row.append(edge);
    Row { text: row, style }
}

fn push_row(rows: &mut Vec<Row>, row: Row)
    ensures
        row_views(final(rows)@) == row_views(old(rows)@).push(row@),
{
    let ghost before = rows@;
    rows.push(row);
    assert(row_views(rows@) =~= row_views(before).push(row@));
}

fn push_rows(rows: &mut Vec<Row>, more: Vec<Row>)
    ensures
        row_views(final(rows)@) == row_views(old(rows)@) + row_views(more@),
{
    let ghost before = rows@;
    let ghost tail = more@;
    let mut more = more;
    rows.append(&mut more);
    assert(row_views(rows@) =~= row_views(before) + row_views(tail));
}

fn panel(title: &str, body: Vec<Row>, hint: &str, width: usize) -> (out: Vec<Row>)
    ensures
        row_views(out@) == panel_of(title@, row_views(body@), hint@, width as nat),
{
    let title = clip(cat2("✿ ", title).as_str(), minus(width, 5));
    let len: usize = chars_of(title.as_str()).len();
    let mut head = cat3("╭─ ", title.as_str(), " ");
    let room: usize = minus(minus(width, 5), len);
    assert(room == less(width as nat, len as nat + 5));
    pad(&mut head, '─', room);
    head.append("╮");
    let mut out: Vec<Row> = Vec::new();
    assert(row_views(out@) =~= Seq::empty());
    let ghost top = RowView { text: head@, style: TITLE@ };
    push_row(&mut out, Row { text: head, style: TITLE });
    assert(row_views(out@) =~= seq![top]);
    push_rows(&mut out, body);
    push_row(&mut out, inner(hint, width, BORDER, "│"));
    let mut foot = copy("╰");
    pad(&mut foot, '─', minus(width, 2));
    foot.append("╯");
    push_row(&mut out, Row { text: foot, style: BORDER });
    out
}

fn choices(picker: &Picker, width: usize, height: usize) -> (out: Vec<Row>)
    requires
        picker@.wf(),
        picker@.shows_selection(height as nat),
    ensures
        row_views(out@) == choices_of(picker@, width as nat, height as nat),
{
    let mut out: Vec<Row> = Vec::new();
    let visible: usize = picker.visible(height);
    let thumb: usize = picker.thumb(height);
    let mut line: usize = 0;
    while line < visible
        invariant
            line <= visible,
                picker@.wf(),
            picker@.shows_selection(height as nat),
            visible == visible_of(picker@.items.len(), height as nat),
            thumb == thumb_of(picker@.items.len(), picker@.first as nat, height as nat),
            out@.len() == line,
            forall|j: int|
                0 <= j < line ==> (#[trigger] out@[j])@ == choice_row(
                    picker@,
                    j,
                    width as nat,
                    height as nat,
                ),
        decreases visible - line,
    {
        let index: usize = picker.first + line;
        let mark = if index == picker.selected {
            "❯"
        } else {
            " "
        };
        let current = match picker.current {
            Some(current) => current == index,
            None => false,
        };
        let suffix = if current {
            "  ● current"
        } else {
            ""
        };
        let taken: usize = chars_of(suffix).len();
        let label = clip(picker.items[index].as_str(), minus(minus(width, 6), taken));
        assert(less(less(width as nat, 6), taken as nat) == less(width as nat, 6 + taken as nat));
        let edge = if picker.items.len() > visible && line == thumb {
            "█"
        } else {
            "│"
        };
        let style = if index == picker.selected {
            SELECTED
        } else {
            TEXT
        };
        out.push(inner(cat4(mark, " ", label.as_str(), suffix).as_str(), width, style, edge));
        line = line + 1;
    }
    assert(row_views(out@) =~= choices_of(picker@, width as nat, height as nat));
    out
}

/// The panel of a list.
pub fn picker_panel(picker: &Picker, width: usize, height: usize, suggestions: bool) -> (out: Vec<
    Row,
>)
    requires
        picker@.wf(),
        picker@.shows_selection(less(height as nat, 3)),
    ensures
        row_views(out@) == picker_panel_of(picker@, width as nat, height as nat, suggestions),
{
    let mut hint = cat3(
        if suggestions {
            "↑↓ choose · Tab complete · Enter run · Esc dismiss"
        } else {
            "↑↓ move · Enter select · Esc cancel"
        },
        "   ",
        decimal_text(picker.selected as u64 + 1).as_str(),
    );
    hint.append("/");
    hint.append(decimal_text(picker.items.len() as u64).as_str());
    panel(
        picker.title.as_str(),
        choices(picker, width, minus(height, 3)),
        hint.as_str(),
        width,
    )
}


// ---------------------------------------------------------------------------
// Dialogs
// ---------------------------------------------------------------------------

/// A dialog: a list to choose from, or a text to enter, below its details.
pub struct Modal {
    pub title: String,
    pub details: String,
    pub picker: Option<Picker>,
    pub text: Option<Vec<char>>,
    pub placeholder: String,
    pub secret: bool,
    pub confirm: bool,
    pub approval: bool,
    pub deadline: Option<u64>,
    pub details_scroll: usize,
    pub detail_rows: usize,
    pub detail_total: usize,
    pub choice_rows: usize,
    /// Whether the last of the details was shown.
    pub reviewed: bool,
    pub review_notice: bool,
    pub utf8: Vec<u8>,
    pub cursor: Option<(usize, usize)>,
}

/// What a [`Modal`] holds.
#[verifier::ext_equal]
pub struct ModalView {
    pub title: Seq<char>,
    pub details: Seq<char>,
    pub picker: Option<PickerView>,
    pub text: Option<Seq<char>>,
    pub placeholder: Seq<char>,
    pub secret: bool,
    pub confirm: bool,
    pub approval: bool,
    pub deadline: Option<u64>,
    pub details_scroll: usize,
    pub detail_rows: usize,
    pub detail_total: usize,
    pub choice_rows: usize,
    pub reviewed: bool,
    pub review_notice: bool,
    pub utf8: Seq<u8>,
    pub cursor: Option<(usize, usize)>,
}

pub open spec fn picker_view(picker: Option<Picker>) -> Option<PickerView> {
    match picker {
        Some(picker) => Some(picker@),
        None => None,
    }
}

pub open spec fn chars_view(text: Option<Vec<char>>) -> Option<Seq<char>> {
    match text {
        Some(text) => Some(text@),
        None => None,
    }
}

impl View for Modal {
    type V = ModalView;

    open spec fn view(&self) -> ModalView {
        ModalView {
            title: self.title@,
            details: self.details@,
            picker: picker_view(self.picker),
            text: chars_view(self.text),
            placeholder: self.placeholder@,
            secret: self.secret,
            confirm: self.confirm,
            approval: self.approval,
            deadline: self.deadline,
            details_scroll: self.details_scroll,
            detail_rows: self.detail_rows,
            detail_total: self.detail_total,
            choice_rows: self.choice_rows,
            reviewed: self.reviewed,
            review_notice: self.review_notice,
            utf8: self.utf8@,
            cursor: self.cursor,
        }
    }
}

impl ModalView {
    /// A list has something to choose.
    pub open spec fn wf(self) -> bool {
        self.picker matches Some(p) ==> p.wf() && p.items.len() > 0
    }

    pub open spec fn expired(self, now: u64) -> bool {
        self.deadline matches Some(deadline) && now >= deadline
    }
}

/// A dialog that asks for a text.
pub open spec fn input_of(
    title: Seq<char>,
    text: Seq<char>,
    placeholder: Seq<char>,
    secret: bool,
) -> ModalView {
    ModalView {
        title,
        details: ""@,
        picker: None,
        text: Some(text),
        placeholder,
        secret,
        confirm: false,
        approval: false,
        deadline: None,
        details_scroll: 0,
        detail_rows: 0,
        detail_total: 0,
        choice_rows: 1,
        reviewed: false,
        review_notice: false,
        utf8: Seq::empty(),
        cursor: None,
    }
}

/// The first line of a title.
pub open spec fn headline(title: Seq<char>) -> Seq<char> {
    match index_of(title, '\n') {
        Some(i) => title.take(i),
        None => title,
    }
}

/// The other lines of a title.
pub open spec fn below(title: Seq<char>) -> Seq<char> {
    match index_of(title, '\n') {
        Some(i) => title.skip(i + 1),
        None => ""@,
    }
}

/// A time from now.
pub open spec fn after(now: u64, wait: u64) -> u64 {
    if now + wait > u64::MAX {
        u64::MAX
    } else {
        (now + wait) as u64
    }
}

/// When a dialog closes by itself. An approval always does.
pub open spec fn deadline_of(e: Tree, approval: bool, now: u64) -> Option<u64> {
    match e.at("timeout"@).natural() {
        Some(ms) => Some(
            after(
                now,
                if ms < MAX_TIMEOUT {
                    ms
                } else {
                    MAX_TIMEOUT
                },
            ),
        ),
        None => if approval {
            Some(after(now, APPROVAL_TIMEOUT))
        } else {
            None
        },
    }
}

/// An option that refuses.
pub open spec fn refusal(item: Seq<char>) -> bool {
    item == "Deny"@ || item == "Block"@ || item == "Cancel"@ || item == "No"@
}

/// The first option from `i` on that refuses.
pub open spec fn refusal_from(items: Seq<Seq<char>>, i: int) -> Option<int>
    decreases items.len() - i,
{
    if i < 0 || i >= items.len() {
        None
    } else if refusal(items[i]) {
        Some(i)
    } else {
        refusal_from(items, i + 1)
    }
}

/// The option that is selected at first: one that refuses, where there is
/// one.
pub open spec fn default_choice(items: Seq<Seq<char>>) -> usize {
    match refusal_from(items, 0) {
        Some(i) => i as usize,
        None => 0,
    }
}

/// The options of a selection, where all are texts of bounded length.
pub open spec fn options_of(e: Tree) -> Option<Seq<Seq<char>>> {
    match e.at("options"@).list() {
        None => None,
        Some(options) => if options.len() == 0 || options.len() > MAX_OPTIONS || exists|i: int|
            0 <= i < options.len() && !option_fits(#[trigger] options[i]) {
            None
        } else {
            Some(Seq::new(options.len(), |i: int| options[i].text()->0))
        },
    }
}

pub open spec fn option_fits(option: Tree) -> bool {
    option.text() matches Some(item) && encode_utf8(item).len() <= MAX_TEXT
}

/// The dialog before its kind is known.
pub open spec fn framed(e: Tree, now: u64) -> ModalView {
    let raw = e.text_or("title"@, "Pi request"@);
    let title = headline(raw);
    let details = below(raw);
    let approval = starts(raw, "Approval needed:"@);
    ModalView {
        details: if details.len() == 0 && title.len() > 60 {
            title
        } else {
            details
        },
        approval,
        deadline: deadline_of(e, approval, now),
        ..input_of(title, Seq::empty(), ""@, false)
    }
}

/// The dialog of its kind.
pub open spec fn fitted(e: Tree, m: ModalView) -> Option<ModalView> {
    if e.says("method"@, "select"@) {
        match options_of(e) {
            None => None,
            Some(items) => Some(
                ModalView {
                    picker: Some(
                        PickerView {
                            current: None,
                            ..PickerView::opened(m.title, items, Some(default_choice(items)), 5)
                        },
                    ),
                    text: None,
                    ..m
                },
            ),
        }
    } else if e.says("method"@, "confirm"@) {
        Some(
            ModalView {
                confirm: true,
                details: (if m.details.len() == 0 {
                    m.details
                } else {
                    m.details + "\n"@
                }) + e.text_or("message"@, ""@),
                picker: Some(
                    PickerView::opened(m.title, seq!["Cancel"@, "Confirm"@], None, 2),
                ),
                text: None,
                ..m
            },
        )
    } else if e.says("method"@, "input"@) || e.says("method"@, "editor"@) {
        let prefill = e.text_or("prefill"@, ""@);
        if encode_utf8(prefill).len() > MAX_TEXT {
            None
        } else {
            Some(
                ModalView {
                    text: Some(prefill),
                    placeholder: e.text_or("placeholder"@, ""@),
                    ..m
                },
            )
        }
    } else {
        None
    }
}

/// The dialog for a question of an extension, where it is of a known kind and
/// of bounded size. A long title of one line is kept in the details too.
pub open spec fn from_rpc_of(e: Tree, now: u64) -> Option<ModalView> {
    if encode_utf8(e.text_or("title"@, "Pi request"@)).len() > MAX_DETAILS {
        None
    } else {
        match fitted(e, framed(e, now)) {
            Some(m) => if encode_utf8(m.details).len() > MAX_DETAILS {
                None
            } else {
                Some(m)
            },
            None => None,
        }
    }
}

fn byte_len(text: &str) -> (n: usize)
    ensures
        n == encode_utf8(text@).len(),
{
    text.as_bytes().len()
}

fn later(now: u64, wait: u64) -> (r: u64)
    ensures
        r == after(now, wait),
{
    now.saturating_add(wait)
}

fn split_title(title: &str) -> (r: (String, String))
    ensures
        r.0@ == headline(title@),
        r.1@ == below(title@),
{
    let chars = chars_of(title);
    match find_char(chars.as_slice(), '\n') {
        Some(i) => {
            let n: usize = chars.len();
            let head = slice_subrange(chars.as_slice(), 0, i);
            let rest = slice_subrange(chars.as_slice(), i + 1, n);
            assert(head@ =~= title@.take(i as int));
            assert(rest@ =~= title@.skip(i + 1));
            (text_of(head), text_of(rest))
        },
        None => (copy(title), copy("")),
    }
}

fn list_options(event: &Json) -> (r: Option<Vec<String>>)
    ensures
        match r {
            Some(items) => options_of(event@) == Some(texts(items@)),
            None => options_of(event@) is None,
        },
{
    let options = match event.at("options").as_list() {
        Some(options) => options,
        None => {
            return None;
        },
    };
    if options.len() == 0 || options.len() > MAX_OPTIONS {
        return None;
    }
    let ghost trees = event@.at("options"@).list()->0;
    let mut items: Vec<String> = Vec::new();
    let mut i: usize = 0;
    while i < options.len()
        invariant
            i <= options@.len(),
            0 < options@.len() <= MAX_OPTIONS,
            event@.at("options"@).list() == Some(trees),
            trees.len() == options@.len(),
            forall|j: int| 0 <= j < options@.len() ==> (#[trigger] options@[j])@ == trees[j],
            items@.len() == i,
            forall|j: int|
                0 <= j < i ==> (#[trigger] items@[j])@ == trees[j].text()->0 && option_fits(
                    trees[j],
                ),
        decreases options@.len() - i,
    {
        match options[i].as_text() {
            Some(item) => {
                if byte_len(item) > MAX_TEXT {
                    assert(options@[i as int]@ == trees[i as int]);
                    assert(!option_fits(trees[i as int]));
                    return None;
                }
                assert(options@[i as int]@ == trees[i as int]);
                assert(option_fits(trees[i as int]));
                items.push(copy(item));
            },
            None => {
                assert(options@[i as int]@ == trees[i as int]);
                assert(!option_fits(trees[i as int]));
                return None;
            },
        }
        i = i + 1;
    }
    proof {
        assert forall|j: int| 0 <= j < trees.len() implies option_fits(#[trigger] trees[j]) by {
            assert(items@[j]@ == trees[j].text()->0);
        }
        assert(texts(items@) =~= Seq::new(trees.len(), |i: int| trees[i].text()->0));
    }
    Some(items)
}

fn refuses(item: &str) -> (r: bool)
    ensures
        r == refusal(item@),
{
    same(item, "Deny") || same(item, "Block") || same(item, "Cancel") || same(item, "No")
}

fn choose_default(items: &Vec<String>) -> (n: usize)
    ensures
        n == default_choice(texts(items@)),
{
    let mut i: usize = 0;
    while i < items.len()
        invariant
            i <= items@.len(),
            refusal_from(texts(items@), 0) == refusal_from(texts(items@), i as int),
        decreases items@.len() - i,
    {
        if refuses(items[i].as_str()) {
            return i;
        }
        i = i + 1;
    }
    0
}

impl Modal {
    /// A dialog that asks for a text.
    pub fn input(title: &str, text: &str, placeholder: &str, secret: bool) -> (r: Self)
        ensures
            r@ == input_of(title@, text@, placeholder@, secret),
            r@.wf(),
    {
        let r = Modal {
            title: copy(title),
            details: copy(""),
            picker: None,
            text: Some(chars_of(text)),
            placeholder: copy(placeholder),
            secret,
            confirm: false,
            approval: false,
            deadline: None,
            details_scroll: 0,
            detail_rows: 0,
            detail_total: 0,
            choice_rows: 1,
            reviewed: false,
            review_notice: false,
            utf8: Vec::new(),
            cursor: None,
        };
        assert(r@ =~= input_of(title@, text@, placeholder@, secret));
        r
    }

    /// The dialog for a question of an extension, where it can be shown.
    pub fn from_rpc(event: &Json, now: u64) -> (r: Option<Self>)
        ensures
            match r {
                Some(modal) => from_rpc_of(event@, now) == Some(modal@) && modal@.wf(),
                None => from_rpc_of(event@, now) is None,
            },
    {
        let raw = event.text_or("title", "Pi request");
        if byte_len(raw) > MAX_DETAILS {
            return None;
        }
        let (title, details) = split_title(raw);
        let mut modal = Self::input(title.as_str(), "", "", false);
        modal.details = if chars_of(details.as_str()).len() == 0 && chars_of(title.as_str()).len()
            > 60 {
            copy(title.as_str())
        } else {
            details
        };
        let chars = chars_of(raw);
        modal.approval = starts_text(chars.as_slice(), "Approval needed:");
        modal.deadline = match event.at("timeout").as_natural() {
            Some(ms) => Some(
                later(
                    now,
                    if ms < MAX_TIMEOUT {
                        ms
                    } else {
                        MAX_TIMEOUT
                    },
                ),
            ),
            None => if modal.approval {
                Some(later(now, APPROVAL_TIMEOUT))
            } else {
                None
            },
        };
        proof {
            reveal_strlit("");
            assert(modal@ =~= framed(event@, now));
        }
        let ghost base = modal@;
        if event.says("method", "select") {
            let items = match list_options(event) {
                Some(items) => items,
                None => {
                    return None;
                },
            };
            let selected: usize = choose_default(&items);
            let ghost list = texts(items@);
            let mut picker = Picker::new(title, items, Some(selected), 5);
            picker.current = None;
            modal.picker = Some(picker);
            modal.text = None;
            proof {
                assert(list.len() > 0);
                assert(picker@ =~= (PickerView {
                    current: None,
                    ..PickerView::opened(base.title, list, Some(default_choice(list)), 5)
                }));
                assert(modal@ =~= fitted(event@, base)->0);
            }
        } else if event.says("method", "confirm") {
            modal.confirm = true;
            let message = event.text_or("message", "");
            if chars_of(modal.details.as_str()).len() > 0 {
                modal.details.append("\n");
            }
            modal.details.append(message);
            let mut items: Vec<String> = Vec::new();
            items.push(copy("Cancel"));
            items.push(copy("Confirm"));
            assert(texts(items@) =~= seq!["Cancel"@, "Confirm"@]);
            modal.picker = Some(Picker::new(title, items, None, 2));
            modal.text = None;
            assert(modal@ =~= fitted(event@, base)->0);
        } else if event.says("method", "input") || event.says("method", "editor") {
            let prefill = event.text_or("prefill", "");
            if byte_len(prefill) > MAX_TEXT {
                return None;
            }
            modal.text = Some(chars_of(prefill));
            modal.placeholder = copy(event.text_or("placeholder", ""));
            assert(modal@ =~= fitted(event@, base)->0);
        } else {
            return None;
        }
        if byte_len(modal.details.as_str()) > MAX_DETAILS {
            return None;
        }
        Some(modal)
    }

    pub fn expired(&self, now: u64) -> (r: bool)
        ensures
            r == self@.expired(now),
    {
        match self.deadline {
            Some(deadline) => now >= deadline,
            None => false,
        }
    }
}

// ---------------------------------------------------------------------------
// Keys
// ---------------------------------------------------------------------------

/// How far the details are scrolled after a page.
pub open spec fn scrolled(m: ModalView, direction: i32) -> usize {
    let page = if m.detail_rows > 1 {
        m.detail_rows as int
    } else {
        1
    };
    let target = m.details_scroll - direction * page;
    let most = m.detail_total - m.detail_rows;
    if target < 0 {
        0
    } else if target > most {
        most as usize
    } else {
        target as usize
    }
}

/// What a navigation key does to a list.
pub open spec fn list_key(p: PickerView, key: Navigation, rows: nat) -> PickerView {
    match key {
        Navigation::ScrollPage(direction) => p.moved(
            saturated((-direction) * visible_of(p.items.len(), rows)),
            rows,
        ),
        Navigation::Up => p.moved(-1, rows),
        Navigation::Down => p.moved(1, rows),
        Navigation::ScrollLines(n) => if n == 3 {
            p.moved(-1, rows)
        } else if n == -3 {
            p.moved(1, rows)
        } else {
            p
        },
        Navigation::MouseScroll(n, _) => if n == 3 {
            p.moved(-1, rows)
        } else if n == -3 {
            p.moved(1, rows)
        } else {
            p
        },
        Navigation::Home => p.at(0, rows),
        Navigation::End => p.at((p.items.len() - 1) as nat, rows),
        _ => p,
    }
}

/// What a navigation key does to a dialog. Pages move the details, as long as
/// not all of them are visible.
pub open spec fn navigated(m: ModalView, key: Navigation) -> ModalView {
    if key is ScrollPage && m.detail_total > m.detail_rows {
        ModalView { details_scroll: scrolled(m, key->ScrollPage_0), ..m }
    } else if let Some(p) = m.picker {
        ModalView { picker: Some(list_key(p, key, m.choice_rows as nat)), ..m }
    } else {
        m
    }
}

/// An option that allows something for which approval is needed.
pub open spec fn allows(item: Seq<char>) -> bool {
    item == "Allow"@ || item == "Always Allow"@
}

/// What Enter does. Nothing is allowed before its details were reviewed.
pub open spec fn entered(m: ModalView) -> (ModalView, Option<Tree>) {
    match m.picker {
        Some(p) => {
            let item = p.items[p.selected as int];
            if m.approval && allows(item) && !m.reviewed {
                (ModalView { review_notice: true, ..m }, None)
            } else if m.confirm {
                (m, Some(Tree::Object(seq![("confirmed"@, Tree::Flag(p.selected == 1))])))
            } else {
                (m, Some(value_tree(item)))
            }
        },
        None => (
            m,
            Some(
                value_tree(
                    match m.text {
                        Some(text) => text,
                        None => Seq::empty(),
                    },
                ),
            ),
        ),
    }
}

/// What a key does to a dialog, and the answer, once there is one.
pub open spec fn keyed(m: ModalView, byte: u8, now: u64) -> (ModalView, Option<Tree>) {
    if m.expired(now) || byte == 3 || byte == 4 {
        (m, Some(cancelled_tree()))
    } else if byte == 13 || byte == 10 {
        entered(m)
    } else if byte == 8 || byte == 127 {
        (
            ModalView {
                utf8: Seq::empty(),
                text: match m.text {
                    Some(text) => Some(
                        if text.len() > 0 {
                            text.drop_last()
                        } else {
                            text
                        },
                    ),
                    None => None,
                },
                ..m
            },
            None,
        )
    } else if byte >= 32 && m.text is Some && encode_utf8(m.text->0).len() < MAX_TEXT {
        let (utf8, more) = pushed(m.utf8, byte);
        (ModalView { utf8, text: Some(m.text->0 + more), ..m }, None)
    } else {
        (m, None)
    }
}

fn single(key: &str, value: Json) -> (r: Json)
    ensures
        r@ == Tree::Object(seq![(key@, value@)]),
{
    let mut fields: Vec<(String, Json)> = Vec::new();
    assert(fields_view(fields@) =~= Seq::empty());
    add_field(&mut fields, key, value);
    assert(fields_view(fields@) =~= seq![(key@, value@)]);
    object(fields)
}

pub(crate) fn move_list(picker: &mut Picker, key: Navigation, rows: usize)
    requires
        old(picker)@.wf(),
        old(picker)@.items.len() > 0,
    ensures
        final(picker)@ == list_key(old(picker)@, key, rows as nat),
        final(picker)@.wf(),
        final(picker)@.items == old(picker)@.items,
{
    match key {
        Navigation::ScrollPage(direction) => {
            let back: i64 = 0i64 - direction as i64;
            let step: isize = if back > isize::MAX as i64 {
                isize::MAX
            } else {
                back as isize
            };
            let ghost n = visible_of(picker@.items.len(), rows as nat);
            assert(saturated(step * n) == saturated((-direction) * n)) by (nonlinear_arith)
                requires
                    back == -direction,
                    n >= 1,
                    step == back || (step == isize::MAX && back > isize::MAX),
            ;
            picker.page(step, rows);
        },
        Navigation::Up => picker.move_by(-1, rows),
        Navigation::Down => picker.move_by(1, rows),
        Navigation::ScrollLines(n) => {
            if n == 3 {
                picker.move_by(-1, rows);
            } else if n == -3 {
                picker.move_by(1, rows);
            }
        },
        Navigation::MouseScroll(n, _) => {
            if n == 3 {
                picker.move_by(-1, rows);
            } else if n == -3 {
                picker.move_by(1, rows);
            }
        },
        Navigation::Home => picker.select(0, rows),
        Navigation::End => {
            let last: usize = picker.items.len() - 1;
            picker.select(last, rows);
        },
        _ => {},
    }
}

impl Modal {
    fn scroll_details(&mut self, direction: i32)
        requires
            old(self).detail_total > old(self).detail_rows,
        ensures
            final(self)@ == (ModalView {
                details_scroll: scrolled(old(self)@, direction),
                ..old(self)@
            }),
    {
        let page: i128 = if self.detail_rows > 1 {
            self.detail_rows as i128
        } else {
            1
        };
        assert(-0x8000_0000_0000_0000_0000_0000 <= direction * page
            <= 0x8000_0000_0000_0000_0000_0000) by (nonlinear_arith)
            requires
                -0x8000_0000 <= direction <= 0x7fff_ffff,
                1 <= page <= 0x1_0000_0000_0000_0000,
        ;
        let target: i128 = self.details_scroll as i128 - direction as i128 * page;
        let most: usize = self.detail_total - self.detail_rows;
        self.details_scroll = if target < 0 {
            0
        } else if target > most as i128 {
            most
        } else {
            target as usize
        };
        assert(self@ =~= (ModalView {
            details_scroll: scrolled(old(self)@, direction),
            ..old(self)@
        }));
    }

    pub fn navigate(&mut self, key: Navigation)
        requires
            old(self)@.wf(),
        ensures
            final(self)@ == navigated(old(self)@, key),
            final(self)@.wf(),
    {
        if let Navigation::ScrollPage(direction) = key {
            if self.detail_total > self.detail_rows {
                self.scroll_details(direction);
                return;
            }
        }
        let ghost start = self@;
        match self.picker.take() {
            Some(mut picker) => {
                move_list(&mut picker, key, self.choice_rows);
                let ghost moved = picker@;
                self.picker = Some(picker);
                assert(self@ =~= (ModalView { picker: Some(moved), ..start }));
            },
            None => {
                assert(self@ =~= start);
            },
        }
    }

    fn enter(&mut self) -> (r: Option<Json>)
        requires
            old(self)@.wf(),
        ensures
            final(self)@ == entered(old(self)@).0,
            match r {
                Some(answer) => entered(old(self)@).1 == Some(answer@),
                None => entered(old(self)@).1 is None,
            },
    {
        match &self.picker {
            Some(picker) => {
                let item = copy(picker.items[picker.selected].as_str());
                let confirmed = picker.selected == 1;
                if self.approval && (same(item.as_str(), "Allow") || same(
                    item.as_str(),
                    "Always Allow",
                )) && !self.reviewed {
                    self.review_notice = true;
                    assert(self@ =~= entered(old(self)@).0);
                    return None;
                }
                if self.confirm {
                    Some(single("confirmed", Json::Flag(confirmed)))
                } else {
                    Some(single("value", text(item.as_str())))
                }
            },
            None => {
                let typed = match &self.text {
                    Some(chars) => text_of(chars.as_slice()),
                    None => {
                        let out = String::new();
                        assert(out@ =~= Seq::empty());
                        out
                    },
                };
                Some(single("value", text(typed.as_str())))
            },
        }
    }

    pub fn key(&mut self, byte: u8, now: u64) -> (r: Option<Json>)
        requires
            old(self)@.wf(),
        ensures
            final(self)@ == keyed(old(self)@, byte, now).0,
            match r {
                Some(answer) => keyed(old(self)@, byte, now).1 == Some(answer@),
                None => keyed(old(self)@, byte, now).1 is None,
            },
            final(self)@.wf(),
    {
        if self.expired(now) || byte == 3 || byte == 4 {
            return Some(single("cancelled", Json::Flag(true)));
        }
        if byte == 13 || byte == 10 {
            return self.enter();
        }
        if byte == 8 || byte == 127 {
            self.utf8.clear();
            if let Some(chars) = &mut self.text {
                let _ = chars.pop();
            }
            assert(self@ =~= keyed(old(self)@, byte, now).0);
            return None;
        }
        if byte >= 32 {
            let fits = match &self.text {
                Some(chars) => byte_len(text_of(chars.as_slice()).as_str()) < MAX_TEXT,
                None => false,
            };
            if fits {
                let more = push_byte(&mut self.utf8, byte);
                if let Some(chars) = &mut self.text {
                    extend_text(chars, more.as_str());
                }
                assert(self@ =~= keyed(old(self)@, byte, now).0);
            }
        }
        None
    }
}


// ---------------------------------------------------------------------------
// Layout
// ---------------------------------------------------------------------------

/// Pieces of `width` characters, but for the last.
pub open spec fn pieces(s: Seq<char>, width: int) -> Seq<Seq<char>>
    decreases s.len(),
{
    if s.len() == 0 || width < 1 {
        Seq::empty()
    } else if s.len() <= width {
        seq![s]
    } else {
        seq![s.take(width)] + pieces(s.skip(width), width)
    }
}

/// The rows of a line of details.
pub open spec fn detail_line(line: Seq<char>, width: int) -> Seq<Seq<char>> {
    if line.len() == 0 {
        seq![line]
    } else {
        pieces(spaced(line), width)
    }
}

/// The rows of the first `n` lines.
pub open spec fn detail_rows_of(ls: Seq<Seq<char>>, n: nat, width: int) -> Seq<Seq<char>>
    decreases n,
{
    if n == 0 {
        Seq::empty()
    } else {
        detail_rows_of(ls, (n - 1) as nat, width) + detail_line(ls[n - 1], width)
    }
}

/// The rows of the details.
pub open spec fn wrap_details_of(text: Seq<char>, width: int) -> Seq<Seq<char>> {
    detail_rows_of(lines(text), lines(text).len(), width)
}

fn push_pieces(out: &mut Vec<Vec<char>>, line: &[char], width: usize)
    requires
        width >= 1,
    ensures
        rows(final(out)@) == rows(old(out)@) + pieces(line@, width as int),
{
    let n: usize = line.len();
    let mut pos: usize = 0;
    let ghost start = rows(out@);
    assert(line@.skip(0) =~= line@);
    while pos < n
        invariant
            width >= 1,
            pos <= n,
            n == line@.len(),
            start + pieces(line@, width as int) =~= rows(out@) + pieces(
                line@.skip(pos as int),
                width as int,
            ),
        decreases n - pos,
    {
        let take: usize = if n - pos <= width {
            n - pos
        } else {
            width
        };
        let ghost left = line@.skip(pos as int);
        let part = slice_subrange(line, pos, pos + take);
        assert(part@ =~= left.take(take as int));
        let piece = crate::text::slice_copy(part);
        proof {
            crate::lines::lemma_rows_push(out@, piece);
        }
        out.push(piece);
        pos = pos + take;
        proof {
            assert(line@.skip(pos as int) =~= left.skip(take as int));
            if take == left.len() {
                assert(left.take(take as int) =~= left);
                assert(pieces(left.skip(take as int), width as int) =~= Seq::empty());
            }
        }
    }
    assert(line@.skip(pos as int) =~= Seq::empty());
    assert(pieces(line@.skip(pos as int), width as int) =~= Seq::empty());
    assert(rows(out@) =~= start + pieces(line@, width as int));
}

fn space_controls(line: &[char]) -> (out: Vec<char>)
    ensures
        out@ == spaced(line@),
{
    let mut out: Vec<char> = Vec::new();
    let mut i: usize = 0;
    while i < line.len()
        invariant
            i <= line@.len(),
            out@.len() == i,
            forall|j: int|
                0 <= j < i ==> #[trigger] out@[j] == if is_control(line@[j]) {
                    ' '
                } else {
                    line@[j]
                },
        decreases line@.len() - i,
    {
        if control(line[i]) {
            out.push(' ');
        } else {
            out.push(line[i]);
        }
        i = i + 1;
    }
    assert(out@ =~= spaced(line@));
    out
}

fn wrap_details(text: &str, width: usize) -> (out: Vec<Vec<char>>)
    requires
        width >= 1,
    ensures
        rows(out@) == wrap_details_of(text@, width as int),
{
    let chars = chars_of(text);
    let ls = split_lines(chars.as_slice());
    let ghost all = lines(text@);
    let mut out: Vec<Vec<char>> = Vec::new();
    let mut i: usize = 0;
    assert(rows(out@) =~= Seq::empty());
    while i < ls.len()
        invariant
            width >= 1,
            i <= ls@.len(),
            rows(ls@) == all,
            rows(out@) == detail_rows_of(all, i as nat, width as int),
        decreases ls@.len() - i,
    {
        assert(all[i as int] == ls@[i as int]@);
        let ghost before = rows(out@);
        if ls[i].len() == 0 {
            let empty: Vec<char> = Vec::new();
            proof {
                crate::lines::lemma_rows_push(out@, empty);
            }
            out.push(empty);
            assert(empty@ =~= all[i as int]);
            assert(rows(out@) =~= before + detail_line(all[i as int], width as int));
        } else {
            let line = space_controls(ls[i].as_slice());
            push_pieces(&mut out, line.as_slice(), width);
        }
        i = i + 1;
    }
    out
}

/// The rows between the borders.
pub open spec fn body_height(height: nat) -> nat {
    if height > 4 {
        (height - 3) as nat
    } else {
        1
    }
}

/// The columns of the details.
pub open spec fn detail_width(width: nat) -> int {
    if width > 5 {
        width - 4
    } else {
        1
    }
}

/// How the body is divided.
pub struct Division {
    pub total: nat,
    pub choices: nat,
    pub details: nat,
    pub scroll: nat,
}

/// Choices come first; the details get what is left, and a row of their own
/// where there is one.
pub open spec fn divided(m: ModalView, total: nat, height: nat) -> Division {
    let body = body_height(height);
    let free = if total > 0 && body > 1 {
        (body - 1) as nat
    } else {
        body
    };
    let choices = match m.picker {
        Some(p) => visible_of(
            p.items.len(),
            if free < 5 {
                free
            } else {
                5
            },
        ),
        None => 1,
    };
    let room = less(body, choices);
    let details = if total < room {
        total
    } else {
        room
    };
    let scroll = if m.details_scroll < total - details {
        m.details_scroll as nat
    } else {
        (total - details) as nat
    };
    Division { total, choices, details, scroll }
}

/// The dialog with its body divided, and what was reviewed.
pub open spec fn arranged(m: ModalView, width: nat, height: nat) -> ModalView {
    let d = divided(m, wrap_details_of(m.details, detail_width(width)).len(), height);
    ModalView {
        detail_total: d.total as usize,
        choice_rows: d.choices as usize,
        detail_rows: d.details as usize,
        details_scroll: d.scroll as usize,
        reviewed: m.reviewed || d.scroll + d.details >= d.total,
        picker: match m.picker {
            Some(p) => Some(p.moved(0, d.choices)),
            None => None,
        },
        cursor: if m.picker is None && m.text is Some {
            Some(((1 + d.details) as usize, (4 + shown_text(m, width).len()) as usize))
        } else {
            None
        },
        ..m
    }
}

/// The last characters of a text.
pub open spec fn tail(s: Seq<char>, n: nat) -> Seq<char> {
    if s.len() > n {
        s.skip(s.len() - n)
    } else {
        s
    }
}

/// Line breaks as spaces.
pub open spec fn unbroken(s: Seq<char>) -> Seq<char> {
    Seq::new(
        s.len(),
        |i: int|
            if s[i] == '\n' || s[i] == '\r' {
                ' '
            } else {
                s[i]
            },
    )
}

/// What is shown of the text that was entered: a secret only as dots, and as
/// much of the end as there is room for.
pub open spec fn shown_text(m: ModalView, width: nat) -> Seq<char> {
    let text = m.text->0;
    tail(
        if m.secret {
            repeated('•', text.len())
        } else {
            unbroken(text)
        },
        less(width, 7),
    )
}

/// The rows of the details that are visible.
pub open spec fn detail_body(m: ModalView, width: nat) -> Seq<RowView> {
    let all = wrap_details_of(m.details, detail_width(width));
    Seq::new(
        m.detail_rows as nat,
        |i: int| inner_of(all[m.details_scroll + i], width, TEXT@, "│"@),
    )
}

/// The body of a dialog that was arranged.
pub open spec fn body_of(m: ModalView, width: nat) -> Seq<RowView> {
    match m.picker {
        Some(p) => detail_body(m, width) + choices_of(p, width, m.choice_rows as nat),
        None => match m.text {
            Some(text) => detail_body(m, width).push(
                if text.len() == 0 {
                    inner_of(
                        "❯ "@ + clip_of(m.placeholder, less(width, 7)),
                        width,
                        BORDER@,
                        "│"@,
                    )
                } else {
                    inner_of("❯ "@ + shown_text(m, width), width, TEXT@, "│"@)
                },
            ),
            None => detail_body(m, width),
        },
    }
}

/// The hint of a dialog that was arranged.
pub open spec fn hint_of(m: ModalView) -> Seq<char> {
    if m.review_notice && !m.reviewed {
        "PgDn: review remaining details before Allow"@
    } else if m.detail_total > m.detail_rows {
        "PgUp/PgDn details "@ + decimal((m.details_scroll + m.detail_rows) as nat) + "/"@ + decimal(
            m.detail_total as nat,
        ) + " · ↑↓ · Enter · Esc"@
    } else if m.picker is Some {
        "↑↓ move · Enter select · Esc cancel"@
    } else {
        "Enter submit · Esc cancel"@
    }
}

/// The rows of a dialog that was arranged.
pub open spec fn modal_rows(m: ModalView, width: nat) -> Seq<RowView> {
    panel_of(m.title, body_of(m, width), hint_of(m), width)
}

fn show_text(m: &Modal, width: usize) -> (out: Vec<char>)
    requires
        m.text is Some,
    ensures
        out@ == shown_text(m@, width as nat),
        out@.len() <= less(width as nat, 7),
{
    let mut all: Vec<char> = Vec::new();
    if let Some(text) = &m.text {
        let mut i: usize = 0;
        while i < text.len()
            invariant
                i <= text@.len(),
                m@.text == Some(text@),
                all@.len() == i,
                forall|j: int|
                    0 <= j < i ==> #[trigger] all@[j] == if m.secret {
                        '•'
                    } else {
                        unbroken(text@)[j]
                    },
            decreases text@.len() - i,
        {
            let c = text[i];
            if m.secret {
                all.push('•');
            } else if c == '\n' || c == '\r' {
                all.push(' ');
            } else {
                all.push(c);
            }
            i = i + 1;
        }
        if m.secret {
            assert(all@ =~= repeated('•', text@.len()));
        } else {
            assert(all@ =~= unbroken(text@));
        }
    }
    let room: usize = minus(width, 7);
    let n: usize = all.len();
    if n > room {
        let part = slice_subrange(all.as_slice(), n - room, n);
        assert(part@ =~= all@.skip(n - room));
        crate::text::slice_copy(part)
    } else {
        all
    }
}

/// A [`Division`] in numbers of the machine.
struct Parts {
    choices: usize,
    details: usize,
    scroll: usize,
}

impl Modal {
    fn divide(&self, total: usize, height: usize) -> (r: Parts)
        requires
            self@.wf(),
        ensures
            r.choices == divided(self@, total as nat, height as nat).choices,
            r.details == divided(self@, total as nat, height as nat).details,
            r.scroll == divided(self@, total as nat, height as nat).scroll,
            r.scroll + r.details <= total,
            r.details < usize::MAX,
    {
        let body: usize = if height > 4 {
            height - 3
        } else {
            1
        };
        let free: usize = if total > 0 && body > 1 {
            body - 1
        } else {
            body
        };
        let choices: usize = match &self.picker {
            Some(picker) => picker.visible(
                if free < 5 {
                    free
                } else {
                    5
                },
            ),
            None => 1,
        };
        let room: usize = minus(body, choices);
        let details: usize = if total < room {
            total
        } else {
            room
        };
        let scroll: usize = if self.details_scroll < total - details {
            self.details_scroll
        } else {
            total - details
        };
        Parts { choices, details, scroll }
    }

    fn place_cursor(&self, details: usize, width: usize) -> (r: Option<(usize, usize)>)
        requires
            details < usize::MAX,
        ensures
            r == if self@.picker is None && self@.text is Some {
                Some(((1 + details) as usize, (4 + shown_text(self@, width as nat).len()) as usize))
            } else {
                None
            },
    {
        if self.picker.is_none() && self.text.is_some() {
            let visible: usize = show_text(self, width).len();
            Some((1 + details, 4 + visible))
        } else {
            None
        }
    }

    fn settle_picker(&mut self, rows: usize)
        requires
            old(self)@.wf(),
        ensures
            final(self)@ == (ModalView {
                picker: match old(self)@.picker {
                    Some(p) => Some(p.moved(0, rows as nat)),
                    None => None,
                },
                ..old(self)@
            }),
            final(self)@.wf(),
            final(self)@.picker matches Some(p) ==> p.shows_selection(rows as nat),
    {
        let ghost start = self@;
        match self.picker.take() {
            Some(mut picker) => {
                picker.move_by(0, rows);
                let ghost moved = picker@;
                self.picker = Some(picker);
                assert(self@ =~= (ModalView { picker: Some(moved), ..start }));
            },
            None => {
                assert(self@ =~= start);
            },
        }
    }

    fn arrange(&mut self, width: usize, height: usize) -> (details: Vec<Vec<char>>)
        requires
            old(self)@.wf(),
        ensures
            final(self)@ == arranged(old(self)@, width as nat, height as nat),
            final(self)@.wf(),
            final(self)@.picker matches Some(p) ==> p.shows_selection(
                final(self)@.choice_rows as nat,
            ),
            rows(details@) == wrap_details_of(old(self)@.details, detail_width(width as nat)),
            final(self)@.details_scroll + final(self)@.detail_rows <= details@.len(),
    {
        let details = wrap_details(
            self.details.as_str(),
            if width > 5 {
                width - 4
            } else {
                1
            },
        );
        let total: usize = details.len();
        assert(rows(details@).len() == total);
        let parts = self.divide(total, height);
        let cursor = self.place_cursor(parts.details, width);
        self.settle_picker(parts.choices);
        let ghost middle = self@;
        self.detail_total = total;
        self.choice_rows = parts.choices;
        self.detail_rows = parts.details;
        self.details_scroll = parts.scroll;
        self.reviewed = self.reviewed || parts.scroll + parts.details >= total;
        self.cursor = cursor;
        assert(self@.picker == middle.picker);
        assert(self@ =~= arranged(old(self)@, width as nat, height as nat));
        details
    }

    /// The rows of the dialog within `height` rows of `width` columns.
    pub fn rows(&mut self, width: usize, height: usize) -> (out: Vec<Row>)
        requires
            old(self)@.wf(),
        ensures
            final(self)@ == arranged(old(self)@, width as nat, height as nat),
            final(self)@.wf(),
            row_views(out@) == modal_rows(final(self)@, width as nat),
    {
        let details = self.arrange(width, height);
        let total: usize = details.len();
        let ghost m = self@;
        let mut body: Vec<Row> = Vec::new();
        let mut i: usize = 0;
        while i < self.detail_rows
            invariant
                i <= self.detail_rows,
                m == self@,
                total == details@.len(),
                m.details_scroll + m.detail_rows <= total,
                rows(details@) == wrap_details_of(m.details, detail_width(width as nat)),
                body@.len() == i,
                forall|j: int|
                    0 <= j < i ==> (#[trigger] body@[j])@ == detail_body(m, width as nat)[j],
            decreases self.detail_rows - i,
        {
            let line = text_of(details[self.details_scroll + i].as_slice());
            assert(rows(details@)[m.details_scroll + i] == line@);
            body.push(inner(line.as_str(), width, TEXT, "│"));
            i = i + 1;
        }
        assert(row_views(body@) =~= detail_body(m, width as nat));
        match &self.picker {
            Some(picker) => {
                push_rows(&mut body, choices(picker, width, self.choice_rows));
            },
            None => {
                if let Some(text) = &self.text {
                    let row = if text.len() == 0 {
                        let shown = clip(self.placeholder.as_str(), minus(width, 7));
                        inner(cat2("❯ ", shown.as_str()).as_str(), width, BORDER, "│")
                    } else {
                        let shown = text_of(show_text(self, width).as_slice());
                        inner(cat2("❯ ", shown.as_str()).as_str(), width, TEXT, "│")
                    };
                    push_row(&mut body, row);
                }
            },
        }
        assert(row_views(body@) =~= body_of(m, width as nat));
        let hint = if self.review_notice && !self.reviewed {
            copy("PgDn: review remaining details before Allow")
        } else if self.detail_total > self.detail_rows {
            let seen: usize = self.details_scroll + self.detail_rows;
            cat5(
                "PgUp/PgDn details ",
                decimal_text(seen as u64).as_str(),
                "/",
                decimal_text(self.detail_total as u64).as_str(),
                " · ↑↓ · Enter · Esc",
            )
        } else if self.picker.is_some() {
            copy("↑↓ move · Enter select · Esc cancel")
        } else {
            copy("Enter submit · Esc cancel")
        };
        panel(self.title.as_str(), body, hint.as_str(), width)
    }
}


// ---------------------------------------------------------------------------
// Laws
// ---------------------------------------------------------------------------

/// Nothing for which approval is needed is allowed before all of its details
/// were shown: no key answers with that option.
pub proof fn law_nothing_is_allowed_unreviewed(m: ModalView, byte: u8, now: u64)
    requires
        m.approval,
        !m.reviewed,
        m.picker is Some,
        allows(m.picker->0.items[m.picker->0.selected as int]),
    ensures
        keyed(m, byte, now).1 is None || keyed(m, byte, now).1 == Some(cancelled_tree()),
{
}

/// Details count as reviewed only once their last row was shown.
pub proof fn law_review_shows_the_last_row(m: ModalView, width: nat, height: nat)
    requires
        !m.reviewed,
        arranged(m, width, height).reviewed,
    ensures
        ({
            let d = divided(m, wrap_details_of(m.details, detail_width(width)).len(), height);
            d.scroll + d.details == d.total
        }),
{
}

/// A dialog whose time is over is cancelled, whatever key comes.
pub proof fn law_expired_dialogs_are_cancelled(m: ModalView, byte: u8, now: u64)
    requires
        m.expired(now),
    ensures
        keyed(m, byte, now) == (m, Some(cancelled_tree())),
{
}

proof fn lemma_refusal_from(items: Seq<Seq<char>>, i: int, k: int)
    requires
        0 <= i <= k < items.len(),
        refusal(items[k]),
    ensures
        refusal_from(items, i) matches Some(j) && i <= j < items.len() && refusal(items[j]),
    decreases k - i,
{
    if !refusal(items[i]) {
        lemma_refusal_from(items, i + 1, k);
    }
}

/// Where one of the options refuses, an option that refuses is selected at
/// first.
pub proof fn law_refusal_is_the_default(e: Tree, now: u64, k: int)
    requires
        e.says("method"@, "select"@),
        from_rpc_of(e, now) is Some,
        0 <= k < options_of(e)->0.len(),
        refusal(options_of(e)->0[k]),
    ensures
        from_rpc_of(e, now)->0.picker matches Some(p) && refusal(p.items[p.selected as int]),
{
    lemma_refusal_from(options_of(e)->0, 0, k);
}

/// A confirmation that is answered at once is refused.
pub proof fn law_confirmation_defaults_to_refusal(e: Tree, now: u64)
    requires
        e.says("method"@, "confirm"@),
        from_rpc_of(e, now) is Some,
    ensures
        entered(from_rpc_of(e, now)->0).1 == Some(
            Tree::Object(seq![("confirmed"@, Tree::Flag(false))]),
        ) || entered(from_rpc_of(e, now)->0).1 is None,
{
    reveal_strlit("confirm");
    reveal_strlit("select");
    assert("confirm"@.len() != "select"@.len());
}

/// An approval always has its time.
pub proof fn law_approvals_expire(e: Tree, now: u64)
    requires
        starts(e.text_or("title"@, "Pi request"@), "Approval needed:"@),
    ensures
        framed(e, now).deadline is Some,
{
}

/// A secret is shown as dots only.
pub proof fn law_secrets_are_masked(m: ModalView, width: nat)
    requires
        m.secret,
        m.text is Some,
    ensures
        forall|i: int|
            0 <= i < shown_text(m, width).len() ==> #[trigger] shown_text(m, width)[i] == '•',
{
}

proof fn lemma_clip_fits(text: Seq<char>, width: nat)
    ensures
        clip_of(text, width).len() <= width,
{
    reveal_strlit("…");
    reveal_strlit("");
}

proof fn lemma_inner_fits(text: Seq<char>, width: nat, style: Seq<char>, edge: Seq<char>)
    requires
        width >= 4,
        edge.len() == 1,
    ensures
        inner_of(text, width, style, edge).text.len() == width,
{
    lemma_clip_fits(text, less(width, 4));
    reveal_strlit("│ ");
    reveal_strlit(" ");
}

/// A panel is exactly as wide as it may be, and has three rows more than its
/// body.
pub proof fn law_panels_fit(title: Seq<char>, body: Seq<RowView>, hint: Seq<char>, width: nat)
    requires
        width >= 5,
        forall|i: int| 0 <= i < body.len() ==> (#[trigger] body[i]).text.len() == width,
    ensures
        panel_of(title, body, hint, width).len() == body.len() + 3,
        forall|i: int|
            0 <= i < body.len() + 3 ==> (#[trigger] panel_of(
                title,
                body,
                hint,
                width,
            )[i]).text.len() == width,
{
    lemma_clip_fits("✿ "@ + title, less(width, 5));
    reveal_strlit("╭─ ");
    reveal_strlit(" ");
    reveal_strlit("╮");
    reveal_strlit("╰");
    reveal_strlit("╯");
    reveal_strlit("│");
    lemma_inner_fits(hint, width, BORDER@, "│"@);
    let all = panel_of(title, body, hint, width);
    assert forall|i: int| 0 <= i < body.len() + 3 implies (#[trigger] all[i]).text.len()
        == width by {
        if 0 < i && i <= body.len() {
            assert(all[i] == body[i - 1]);
        }
    }
}

/// A dialog is exactly as wide as it may be, and not higher.
pub proof fn law_dialogs_fit(m: ModalView, width: nat, height: nat)
    requires
        m.wf(),
        width >= 5,
        height >= 4,
        wrap_details_of(m.details, detail_width(width)).len() <= usize::MAX,
        height <= usize::MAX,
    ensures
        modal_rows(arranged(m, width, height), width).len() <= height,
        forall|i: int|
            0 <= i < modal_rows(arranged(m, width, height), width).len() ==> (
            #[trigger] modal_rows(arranged(m, width, height), width)[i]).text.len() == width,
{
    let a = arranged(m, width, height);
    let body = body_of(a, width);
    reveal_strlit("│");
    reveal_strlit("█");
    assert forall|i: int| 0 <= i < body.len() implies (#[trigger] body[i]).text.len() == width by {
        let details = detail_body(a, width);
        if i < details.len() {
            let all = wrap_details_of(a.details, detail_width(width));
            assert(body[i] == details[i]);
            lemma_inner_fits(all[a.details_scroll + i], width, TEXT@, "│"@);
        } else {
            match a.picker {
                Some(p) => {
                    let line = i - details.len();
                    assert(body[i] == choice_row(p, line, width, a.choice_rows as nat));
                    let visible = visible_of(p.items.len(), a.choice_rows as nat);
                    let index = p.first + line;
                    let suffix = if p.current == Some(index as usize) {
                        "  ● current"@
                    } else {
                        ""@
                    };
                    let label = clip_of(p.items[index], less(width, 6 + suffix.len()));
                    lemma_inner_fits(
                        (if index == p.selected {
                            "❯"@
                        } else {
                            " "@
                        }) + " "@ + label + suffix,
                        width,
                        if index == p.selected {
                            SELECTED@
                        } else {
                            TEXT@
                        },
                        if p.items.len() > visible && line == thumb_of(
                            p.items.len(),
                            p.first as nat,
                            a.choice_rows as nat,
                        ) {
                            "█"@
                        } else {
                            "│"@
                        },
                    );
                },
                None => {
                    lemma_inner_fits(
                        "❯ "@ + clip_of(a.placeholder, less(width, 7)),
                        width,
                        BORDER@,
                        "│"@,
                    );
                    lemma_inner_fits("❯ "@ + shown_text(a, width), width, TEXT@, "│"@);
                },
            }
        }
    }
    law_panels_fit(a.title, body, hint_of(a), width);
}

proof fn lemma_flat_front(first: Seq<char>, rest: Seq<Seq<char>>)
    ensures
        flat(seq![first] + rest) == first + flat(rest),
    decreases rest.len(),
{
    let all = seq![first] + rest;
    if rest.len() == 0 {
        assert(all.drop_last() =~= Seq::empty());
        assert(flat(all.drop_last()) =~= Seq::empty());
        assert(flat(all) =~= first + flat(rest));
    } else {
        assert(all.drop_last() =~= seq![first] + rest.drop_last());
        lemma_flat_front(first, rest.drop_last());
        assert(flat(all) =~= first + flat(rest));
    }
}

proof fn lemma_flat_add(a: Seq<Seq<char>>, b: Seq<Seq<char>>)
    ensures
        flat(a + b) == flat(a) + flat(b),
    decreases b.len(),
{
    if b.len() == 0 {
        assert(a + b =~= a);
        assert(flat(a) + flat(b) =~= flat(a));
    } else {
        assert((a + b).drop_last() =~= a + b.drop_last());
        lemma_flat_add(a, b.drop_last());
        assert(flat(a + b) =~= flat(a) + flat(b));
    }
}

/// The rows of a line, put together, are the whole line. Each holds something
/// and fits, and all but the last are full.
pub proof fn law_rows_make_up_the_line(s: Seq<char>, width: int)
    requires
        width >= 1,
    ensures
        flat(pieces(s, width)) == s,
        forall|i: int|
            0 <= i < pieces(s, width).len() ==> 0 < (#[trigger] pieces(s, width)[i]).len()
                <= width,
        forall|i: int|
            0 <= i < pieces(s, width).len() - 1 ==> (#[trigger] pieces(s, width)[i]).len()
                == width,
    decreases s.len(),
{
    let all = pieces(s, width);
    if s.len() == 0 {
        assert(flat(all) =~= s);
    } else if s.len() <= width {
        assert(all.drop_last() =~= Seq::empty());
        assert(flat(all.drop_last()) =~= Seq::empty());
        assert(flat(all) =~= s);
    } else {
        let rest = pieces(s.skip(width), width);
        law_rows_make_up_the_line(s.skip(width), width);
        lemma_flat_front(s.take(width), rest);
        assert(flat(all) =~= s);
        assert forall|i: int| 0 <= i < all.len() implies 0 < (#[trigger] all[i]).len()
            <= width by {
            if i > 0 {
                assert(all[i] == rest[i - 1]);
            }
        }
        assert forall|i: int| 0 <= i < all.len() - 1 implies (#[trigger] all[i]).len()
            == width by {
            if i > 0 {
                assert(all[i] == rest[i - 1]);
            }
        }
    }
}

/// The lines of a text, controls as blanks, one after the other.
pub open spec fn readable(ls: Seq<Seq<char>>) -> Seq<char>
    decreases ls.len(),
{
    if ls.len() == 0 {
        Seq::empty()
    } else {
        readable(ls.drop_last()) + spaced(ls.last())
    }
}

proof fn lemma_detail_rows(ls: Seq<Seq<char>>, n: nat, width: int)
    requires
        width >= 1,
        n <= ls.len(),
    ensures
        flat(detail_rows_of(ls, n, width)) == readable(ls.take(n as int)),
        forall|i: int|
            0 <= i < detail_rows_of(ls, n, width).len() ==> (#[trigger] detail_rows_of(
                ls,
                n,
                width,
            )[i]).len() <= width,
        detail_rows_of(ls, n, width).len() >= n,
        forall|i: int, j: int|
            0 <= i < detail_rows_of(ls, n, width).len() && 0 <= j < detail_rows_of(
                ls,
                n,
                width,
            )[i].len() ==> !is_control(#[trigger] detail_rows_of(ls, n, width)[i][j]),
    decreases n,
{
    let all = detail_rows_of(ls, n, width);
    if n == 0 {
        assert(ls.take(0) =~= Seq::empty());
        assert(flat(all) =~= Seq::empty());
    } else {
        let line = ls[n - 1];
        let before = detail_rows_of(ls, (n - 1) as nat, width);
        let more = detail_line(line, width);
        lemma_detail_rows(ls, (n - 1) as nat, width);
        law_rows_make_up_the_line(spaced(line), width);
        lemma_flat_add(before, more);
        assert(ls.take(n as int).drop_last() =~= ls.take(n - 1));
        assert(ls.take(n as int).last() == line);
        if line.len() == 0 {
            assert(seq![line].drop_last() =~= Seq::empty());
            assert(flat(seq![line].drop_last()) =~= Seq::empty());
            assert(flat(more) =~= spaced(line));
        } else {
            assert(more.len() > 0) by {
                if more.len() == 0 {
                    assert(flat(more).len() == 0);
                }
            }
        }
        lemma_pieces_clean(spaced(line), width);
        assert forall|i: int| 0 <= i < all.len() implies (#[trigger] all[i]).len() <= width by {
            if i >= before.len() {
                assert(all[i] == more[i - before.len()]);
            }
        }
        assert forall|i: int, j: int| 0 <= i < all.len() && 0 <= j < all[i].len() implies
            !is_control(#[trigger] all[i][j]) by {
            if i >= before.len() {
                assert(all[i] == more[i - before.len()]);
                if line.len() > 0 {
                    assert(!is_control(pieces(spaced(line), width)[i - before.len()][j]));
                }
            } else {
                assert(all[i] == before[i]);
                assert(!is_control(before[i][j]));
            }
        }
    }
}

proof fn lemma_pieces_clean(s: Seq<char>, width: int)
    requires
        width >= 1,
        forall|j: int| 0 <= j < s.len() ==> !is_control(#[trigger] s[j]),
    ensures
        forall|i: int, j: int|
            0 <= i < pieces(s, width).len() && 0 <= j < pieces(s, width)[i].len() ==> !is_control(
                #[trigger] pieces(s, width)[i][j],
            ),
    decreases s.len(),
{
    let all = pieces(s, width);
    if s.len() > width {
        let rest = pieces(s.skip(width), width);
        lemma_pieces_clean(s.skip(width), width);
        assert forall|i: int, j: int| 0 <= i < all.len() && 0 <= j < all[i].len() implies
            !is_control(#[trigger] all[i][j]) by {
            if i > 0 {
                assert(all[i] == rest[i - 1]);
                assert(!is_control(rest[i - 1][j]));
            } else {
                assert(all[i][j] == s[j]);
            }
        }
    }
}

/// The rows of the details, put together, are all of their lines, controls as
/// blanks; each line begins a row, and no row is wider than it may be.
pub proof fn law_details_are_wrapped_whole(text: Seq<char>, width: int)
    requires
        width >= 1,
    ensures
        flat(wrap_details_of(text, width)) == readable(lines(text)),
        wrap_details_of(text, width).len() >= lines(text).len(),
        forall|i: int|
            0 <= i < wrap_details_of(text, width).len() ==> (#[trigger] wrap_details_of(
                text,
                width,
            )[i]).len() <= width,
{
    lemma_detail_rows(lines(text), lines(text).len(), width);
    assert(lines(text).take(lines(text).len() as int) =~= lines(text));
}

/// A row of a panel shows its text whole, where it fits and holds no controls.
pub proof fn law_rows_show_their_text(
    text: Seq<char>,
    width: nat,
    style: Seq<char>,
    edge: Seq<char>,
)
    requires
        text.len() + 4 <= width,
        forall|i: int| 0 <= i < text.len() ==> !is_control(#[trigger] text[i]),
    ensures
        inner_of(text, width, style, edge).text == "│ "@ + text + repeated(
            ' ',
            (width - 4 - text.len()) as nat,
        ) + " "@ + edge,
        inner_of(text, width, style, edge).style == style,
{
    lemma_clean_text(text);
}

/// A dialog shows as many rows of the details as there is room for, one after
/// the other and each whole, above what can be chosen.
pub proof fn law_dialogs_show_their_details(m: ModalView, width: nat, height: nat, i: int)
    requires
        m.wf(),
        width > 5,
        width <= usize::MAX,
        height <= usize::MAX,
        wrap_details_of(m.details, width - 4).len() <= usize::MAX,
        0 <= i < arranged(m, width, height).detail_rows,
    ensures
        ({
            let a = arranged(m, width, height);
            let all = wrap_details_of(m.details, width - 4);
            &&& a.details_scroll + a.detail_rows <= all.len()
            &&& a.detail_total == all.len()
            &&& modal_rows(a, width)[i + 1].text == "│ "@ + all[a.details_scroll + i] + repeated(
                ' ',
                (width - 4 - all[a.details_scroll + i].len()) as nat,
            ) + " "@ + "│"@
        }),
{
    let a = arranged(m, width, height);
    let all = wrap_details_of(m.details, width - 4);
    lemma_detail_rows(lines(m.details), lines(m.details).len(), width - 4);
    let row = all[a.details_scroll + i];
    assert forall|j: int| 0 <= j < row.len() implies !is_control(#[trigger] row[j]) by {
        assert(!is_control(all[a.details_scroll + i][j]));
    }
    law_rows_show_their_text(row, width, TEXT@, "│"@);
    let body = body_of(a, width);
    assert(body[i] == detail_body(a, width)[i]);
    assert(modal_rows(a, width)[i + 1] == body[i]);
}

/// Details are reviewed once their last row is on the screen, and not before.
pub proof fn law_review_needs_the_last_row(m: ModalView, width: nat, height: nat)
    requires
        width > 5,
        width <= usize::MAX,
        height <= usize::MAX,
        wrap_details_of(m.details, width - 4).len() <= usize::MAX,
    ensures
        ({
            let a = arranged(m, width, height);
            a.reviewed <==> m.reviewed || a.details_scroll + a.detail_rows == wrap_details_of(
                m.details,
                width - 4,
            ).len()
        }),
{
}

/// A page moves the details by the rows that are visible and no more: no row
/// is passed over.
pub proof fn law_pages_pass_over_no_row(m: ModalView)
    requires
        m.detail_total > m.detail_rows,
        m.detail_rows > 0,
        m.details_scroll + m.detail_rows <= m.detail_total,
    ensures
        ({
            let d = navigated(m, Navigation::ScrollPage((-1) as i32));
            let u = navigated(m, Navigation::ScrollPage(1));
            &&& m.details_scroll <= d.details_scroll <= m.details_scroll + m.detail_rows
            &&& m.details_scroll + m.detail_rows < m.detail_total ==> d.details_scroll
                > m.details_scroll
            &&& d.details_scroll + d.detail_rows <= m.detail_total
            &&& u.details_scroll <= m.details_scroll <= u.details_scroll + m.detail_rows
            &&& m.details_scroll > 0 ==> u.details_scroll < m.details_scroll
            &&& d.picker == m.picker && d.reviewed == m.reviewed
        }),
{
    let page = if m.detail_rows > 1 {
        m.detail_rows as int
    } else {
        1
    };
    assert(((-1) as i32) * page == -page) by (nonlinear_arith);
    assert((1 as i32) * page == page) by (nonlinear_arith);
}

/// A dialog is about what was asked: its title and its details are the title
/// of the question, line by line, and its options are those of the question.
pub proof fn law_dialogs_ask_the_question(e: Tree, now: u64)
    requires
        from_rpc_of(e, now) is Some,
        e.text_at("title"@) is Some,
    ensures
        ({
            let m = from_rpc_of(e, now)->0;
            let raw = e.text_at("title"@)->0;
            &&& raw.contains('\n') && raw.last() != '\n' && !e.says("method"@, "confirm"@) ==> raw
                == m.title + seq!['\n'] + m.details
            &&& raw.contains('\n') ==> starts(raw, m.title + seq!['\n'])
            &&& !raw.contains('\n') ==> m.title == raw
            &&& !m.title.contains('\n')
            &&& m.approval == starts(raw, "Approval needed:"@)
        }),
{
    let raw = e.text_at("title"@)->0;
    if raw.contains('\n') {
        let i = index_of(raw, '\n')->0;
        crate::text::law_the_first_place_is_found(raw, '\n');
        assert(raw =~= raw.take(i) + seq!['\n'] + raw.skip(i + 1));
        assert(raw.subrange(0, i + 1) =~= raw.take(i) + seq!['\n']);
        if raw.last() != '\n' {
            assert(i < raw.len() - 1);
            assert(below(raw).len() > 0);
        }
    } else {
        crate::text::law_the_first_place_is_found(raw, '\n');
    }
}

/// The options of a selection are those that were asked about, and none of
/// them is marked.
pub proof fn law_options_are_offered(e: Tree, now: u64, i: int)
    requires
        e.says("method"@, "select"@),
        from_rpc_of(e, now) is Some,
    ensures
        from_rpc_of(e, now)->0.picker is Some,
        from_rpc_of(e, now)->0.text is None,
        e.at("options"@).list() is Some,
        ({
            let p = from_rpc_of(e, now)->0.picker->0;
            let options = e.at("options"@).list()->0;
            &&& p.items.len() == options.len()
            &&& 0 <= i < options.len() ==> options[i].text() == Some(p.items[i])
            &&& p.current is None
        }),
{
    let options = e.at("options"@).list()->0;
    if 0 <= i < options.len() {
        assert(option_fits(options[i]));
    }
}

/// Enter answers with what is selected or what was typed; a confirmation is
/// given by its second choice alone.
pub proof fn law_answers_are_what_was_chosen(m: ModalView, byte: u8, now: u64)
    requires
        byte == 13 || byte == 10,
        !m.expired(now),
        !m.approval || m.reviewed,
    ensures
        m.picker is Some && !m.confirm ==> keyed(m, byte, now).1 is Some && keyed(
            m,
            byte,
            now,
        ).1->0.says("value"@, m.picker->0.items[m.picker->0.selected as int]),
        m.picker is Some && m.confirm ==> keyed(m, byte, now).1 is Some && keyed(
            m,
            byte,
            now,
        ).1->0.flagged("confirmed"@, m.picker->0.selected == 1),
        m.picker is None && m.text is Some ==> keyed(m, byte, now).1 is Some && keyed(
            m,
            byte,
            now,
        ).1->0.says("value"@, m.text->0),
        keyed(m, byte, now).0 == m,
{
    reveal_with_fuel(crate::json::entry, 2);
}

/// Backspace removes the last character of what was typed, and a key that is
/// no character leaves it.
pub proof fn law_typed_answers_are_edited(m: ModalView, byte: u8, now: u64)
    requires
        m.text is Some,
        m.picker is None,
        !m.expired(now),
    ensures
        byte == 127 && m.text->0.len() > 0 ==> keyed(m, byte, now).0.text == Some(
            m.text->0.take(m.text->0.len() - 1),
        ) && keyed(m, byte, now).1 is None,
        byte < 32 && byte != 8 ==> keyed(m, byte, now).0.text == m.text,
        byte >= 32 && byte != 127 ==> keyed(m, byte, now).0.text is Some && starts(
            keyed(m, byte, now).0.text->0,
            m.text->0,
        ) && keyed(m, byte, now).1 is None,
{
    if m.text->0.len() > 0 {
        assert(m.text->0.drop_last() =~= m.text->0.take(m.text->0.len() - 1));
    }
    let t = m.text->0;
    if byte >= 32 && byte != 127 {
        let after = keyed(m, byte, now).0.text->0;
        assert(after.subrange(0, t.len() as int) =~= t);
    }
}

/// The arrows move the selection by one option and Home and End to the first
/// and the last; the options stay.
pub proof fn law_arrows_move_the_selection(p: PickerView, rows: nat)
    requires
        p.wf(),
        p.items.len() > 0,
    ensures
        p.selected > 0 ==> list_key(p, Navigation::Up, rows).selected == p.selected - 1,
        p.selected + 1 < p.items.len() ==> list_key(p, Navigation::Down, rows).selected
            == p.selected + 1,
        p.selected == 0 ==> list_key(p, Navigation::Up, rows).selected == 0,
        list_key(p, Navigation::Home, rows).selected == 0,
        list_key(p, Navigation::End, rows).selected == p.items.len() - 1,
        list_key(p, Navigation::Up, rows).items == p.items,
        list_key(p, Navigation::Down, rows).items == p.items,
{
}

/// A dialog closes by itself when its time is over and not earlier.
pub proof fn law_deadlines_are_kept(e: Tree, now: u64, ms: u64, later: u64)
    requires
        from_rpc_of(e, now) is Some,
        e.at("timeout"@).natural() == Some(ms),
        ms <= 86_400_000,
        now + ms <= u64::MAX,
    ensures
        from_rpc_of(e, now)->0.expired(later) <==> later >= now + ms,
{
}

/// An option is shown with its name, where that fits, and the selected one is
/// marked.
pub proof fn law_options_are_shown(p: PickerView, line: int, width: nat, height: nat)
    requires
        p.wf(),
        0 <= line < visible_of(p.items.len(), height),
        p.first + visible_of(p.items.len(), height) <= p.items.len(),
        p.items[p.first + line].len() + 6 <= width,
        p.current is None,
        forall|j: int|
            0 <= j < p.items[p.first + line].len() ==> !is_control(
                #[trigger] p.items[p.first + line][j],
            ),
    ensures
        starts(
            choices_of(p, width, height)[line].text,
            "│ "@ + (if p.first + line == p.selected {
                "❯ "@
            } else {
                "  "@
            }) + p.items[p.first + line],
        ),
        choices_of(p, width, height).len() == visible_of(p.items.len(), height),
{
    let item = p.items[p.first + line];
    reveal_strlit("❯");
    reveal_strlit(" ");
    reveal_strlit("❯ ");
    reveal_strlit("  ");
    reveal_strlit("");
    assert("❯"@ + " "@ =~= "❯ "@);
    assert(" "@ + " "@ =~= "  "@);
    lemma_clean_text(item);
    let mark = if p.first + line == p.selected {
        "❯ "@
    } else {
        "  "@
    };
    let shown = (if p.first + line == p.selected {
        "❯"@
    } else {
        " "@
    }) + " "@ + item + ""@;
    assert(shown =~= mark + item);
    assert forall|j: int| 0 <= j < shown.len() implies !is_control(#[trigger] shown[j]) by {
        if j >= 2 {
            assert(shown[j] == item[j - 2]);
        }
    }
    let visible = visible_of(p.items.len(), height);
    let style = if p.first + line == p.selected {
        SELECTED@
    } else {
        TEXT@
    };
    let edge = if p.items.len() > visible && line == thumb_of(
        p.items.len(),
        p.first as nat,
        height,
    ) {
        "█"@
    } else {
        "│"@
    };
    assert(choices_of(p, width, height)[line] == inner_of(shown, width, style, edge));
    lemma_row_starts(shown, width, style, edge);
    assert("│ "@ + shown =~= "│ "@ + mark + item);
}

proof fn lemma_row_starts(text: Seq<char>, width: nat, style: Seq<char>, edge: Seq<char>)
    requires
        text.len() + 4 <= width,
        forall|i: int| 0 <= i < text.len() ==> !is_control(#[trigger] text[i]),
    ensures
        starts(inner_of(text, width, style, edge).text, "│ "@ + text),
{
    law_rows_show_their_text(text, width, style, edge);
    let head = "│ "@ + text;
    assert(inner_of(text, width, style, edge).text.subrange(0, head.len() as int) =~= head);
}

/// Details that fit beside the choices are shown whole and are not scrolled;
/// else every row that is free shows one of them, up to the last at most.
pub proof fn law_details_get_the_room(m: ModalView, total: nat, height: nat)
    requires
        height > 8,
    ensures
        ({
            let d = divided(m, total, height);
            &&& d.choices + d.details <= height - 3
            &&& d.scroll + d.details <= total
            &&& total + d.choices <= height - 3 ==> d.details == total && d.scroll == 0
            &&& total + d.choices > height - 3 ==> d.choices + d.details == height - 3
            &&& m.details_scroll + d.details <= total ==> d.scroll == m.details_scroll
            &&& m.picker is None ==> d.choices == 1
            &&& m.picker is Some && m.picker->0.items.len() <= 5 ==> d.choices
                == m.picker->0.items.len()
            &&& m.picker is Some && m.picker->0.items.len() > 5 ==> d.choices == 5
        }),
{
}

/// What was typed is shown, and of a long text its end; only a secret is not.
pub proof fn law_typed_text_is_shown(m: ModalView, width: nat, text: Seq<char>)
    requires
        m.text == Some(text),
        !m.secret,
        forall|i: int| 0 <= i < text.len() ==> #[trigger] text[i] != '\n' && text[i] != '\r',
        width >= 7,
    ensures
        text.len() + 7 <= width ==> shown_text(m, width) == text,
        text.len() + 7 > width ==> shown_text(m, width) == text.skip(text.len() - (width - 7)),
{
    assert(unbroken(text) =~= text);
}

}
