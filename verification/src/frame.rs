//! The rows of the screen.
use crate::clipboard::{follow_up_key, follow_up_key_of, paste_key, paste_key_of};
use crate::display::{
    clip, clip_of, law_sequences_are_dropped, less, minus, strip_ansi_of, working_status,
    working_status_of,
};
use crate::lines::{replace, replaced};
use crate::markdown::{Cell, Role, Row, RowView, Tone};
use crate::number::{decimal, decimal_text};
use crate::pending::{ItemView, PendingItem};
use crate::queue::QueueMode;
use crate::text::{
    cat2, cat3, cat4, chars_of, clean, copy, extend, extend_text, find, occurs_at, pad, position, repeated,
    slice_copy, starts, starts_text, text_of, trim_start, trimmed_start, without_controls,
};
use crate::ui::{style_text, styled};
use vstd::prelude::*;
use vstd::slice::slice_subrange;

verus! {

/// The style of accents.
pub const ACCENT: &'static str = "1;38;2;236;74;125";

/// The style of what is less important.
pub const FAINT: &'static str = "2";

/// What a sign-in notice shows as a link.
pub const SIGN_IN: &'static str = "Open Codex sign-in ↗";

/// The background of messages of the user.
pub const USER_BACKGROUND: &'static str = "\x1b[48;2;57;30;46m";

// ---------------------------------------------------------------------------
// The conversation
// ---------------------------------------------------------------------------

pub open spec fn tone_code_of(tone: Tone) -> Seq<char> {
    match tone {
        Tone::Plain => ""@,
        Tone::Strong => "1;38;2;255;220;230"@,
        Tone::Emphasis => "3;38;2;255;183;206"@,
        Tone::Code => "38;2;255;173;197"@,
        Tone::Heading => "1;38;2;236;74;125"@,
        Tone::Link => "4;38;2;236;74;125"@,
        Tone::Muted => "2"@,
        Tone::Activity => "1;38;2;236;74;125"@,
        Tone::Success => "38;2;169;224;184"@,
        Tone::Error => "38;2;255;120;149"@,
        Tone::DiffAdded => "38;2;169;224;184;48;2;36;55;44"@,
        Tone::DiffRemoved => "38;2;255;134;153;48;2;65;35;49"@,
        Tone::DiffContext => "38;2;180;172;183;48;2;41;35;46"@,
    }
}

/// The style of a tone.
pub fn tone_code(tone: Tone) -> (r: &'static str)
    ensures
        r@ == tone_code_of(tone),
{
    match tone {
        Tone::Plain => "",
        Tone::Strong => "1;38;2;255;220;230",
        Tone::Emphasis => "3;38;2;255;183;206",
        Tone::Code => "38;2;255;173;197",
        Tone::Heading => "1;38;2;236;74;125",
        Tone::Link => "4;38;2;236;74;125",
        Tone::Muted => "2",
        Tone::Activity => "1;38;2;236;74;125",
        Tone::Success => "38;2;169;224;184",
        Tone::Error => "38;2;255;120;149",
        Tone::DiffAdded => "38;2;169;224;184;48;2;36;55;44",
        Tone::DiffRemoved => "38;2;255;134;153;48;2;65;35;49",
        Tone::DiffContext => "38;2;180;172;183;48;2;41;35;46",
    }
}

/// What changes the style to that of a tone.
pub open spec fn change_of(tone: Tone) -> Seq<char> {
    if tone == Tone::Plain {
        "\x1b[0m"@
    } else {
        "\x1b[0m"@ + "\x1b["@ + tone_code_of(tone) + "m"@
    }
}

/// The tone of the cell before `n`.
pub open spec fn tone_before(cells: Seq<Cell>, n: nat, color: bool) -> Tone {
    if n == 0 || !color {
        Tone::Plain
    } else {
        cells[n - 1].tone
    }
}

/// The first `n` cells, with their styles.
pub open spec fn cells_text(cells: Seq<Cell>, n: nat, color: bool) -> Seq<char>
    decreases n,
{
    if n == 0 {
        Seq::empty()
    } else {
        let out = cells_text(cells, (n - 1) as nat, color);
        let cell = cells[n - 1];
        (if color && cell.tone != tone_before(cells, (n - 1) as nat, color) {
            out + change_of(cell.tone)
        } else {
            out
        }).push(cell.ch)
    }
}

/// The characters of cells.
pub open spec fn cells_plain(cells: Seq<Cell>) -> Seq<char> {
    Seq::new(cells.len(), |i: int| cells[i].ch)
}

/// A row, filled with its background and at the end in no style.
pub open spec fn toned_line(row: RowView, width: nat, color: bool) -> Seq<char> {
    let n = row.cells.len();
    let text = cells_text(row.cells, n, color);
    let wide = if color && row.role == Role::Diff {
        text + repeated(' ', less(width, n))
    } else {
        text
    };
    if color && tone_before(row.cells, n, color) != Tone::Plain {
        wide + "\x1b[0m"@
    } else {
        wide
    }
}

/// The row offers to sign in.
pub open spec fn offers_sign_in(row: RowView) -> bool {
    row.role == Role::Note && starts(
        trim_start(cells_plain(row.cells)),
        "· Open Codex sign-in ↗"@,
    )
}

/// A text whose offer to sign in is a link.
pub open spec fn linked(text: Seq<char>, url: Seq<char>) -> Seq<char> {
    match find(text, SIGN_IN@) {
        Some(i) => text.take(i) + "\x1b]8;;"@ + url + "\x1b\\"@ + SIGN_IN@ + "\x1b]8;;\x1b\\"@
            + text.skip(i + SIGN_IN@.len()),
        None => text,
    }
}

pub open spec fn styled_line_of(row: RowView, width: nat, color: bool, url: Option<Seq<char>>) -> Seq<
    char,
> {
    let line = toned_line(row, width, color);
    match url {
        Some(url) => if offers_sign_in(row) {
            linked(line, url)
        } else {
            line
        },
        None => line,
    }
}

fn write_cells(cells: &Vec<Cell>, color: bool) -> (out: Vec<char>)
    ensures
        out@ == cells_text(cells@, cells@.len(), color),
{
    let mut out: Vec<char> = Vec::new();
    let mut previous = Tone::Plain;
    let mut i: usize = 0;
    assert(out@ =~= Seq::empty());
    while i < cells.len()
        invariant
            i <= cells@.len(),
            previous == tone_before(cells@, i as nat, color),
            out@ == cells_text(cells@, i as nat, color),
        decreases cells@.len() - i,
    {
        let cell = cells[i];
        let ghost start = out@;
        if color && cell.tone != previous {
            extend_text(&mut out, "\x1b[0m");
            if cell.tone != Tone::Plain {
                extend_text(&mut out, "\x1b[");
                extend_text(&mut out, tone_code(cell.tone));
                extend_text(&mut out, "m");
            }
            assert(out@ =~= start + change_of(cell.tone));
            previous = cell.tone;
        }
        out.push(cell.ch);
        i = i + 1;
    }
    out
}

fn plain_cells(cells: &Vec<Cell>) -> (out: Vec<char>)
    ensures
        out@ == cells_plain(cells@),
{
    let mut out: Vec<char> = Vec::new();
    let mut i: usize = 0;
    while i < cells.len()
        invariant
            i <= cells@.len(),
            out@ == cells_plain(cells@).take(i as int),
        decreases cells@.len() - i,
    {
        out.push(cells[i].ch);
        i = i + 1;
        assert(out@ =~= cells_plain(cells@).take(i as int));
    }
    assert(cells_plain(cells@).take(i as int) =~= cells_plain(cells@));
    out
}

fn toned(row: &Row, width: usize, color: bool) -> (out: Vec<char>)
    ensures
        out@ == toned_line(row@, width as nat, color),
{
    let mut out = write_cells(&row.cells, color);
    let n: usize = row.cells.len();
    if color && row.role == Role::Diff {
        let mut blanks = String::new();
        pad(&mut blanks, ' ', minus(width, n));
        let ghost text = out@;
        assert(blanks@ =~= repeated(' ', less(width as nat, n as nat)));
        extend_text(&mut out, blanks.as_str());
    }
    if color && n > 0 && row.cells[n - 1].tone != Tone::Plain {
        extend_text(&mut out, "\x1b[0m");
    }
    out
}

fn link(text: &[char], url: &str) -> (out: Vec<char>)
    ensures
        out@ == linked(text@, url@),
{
    let label = chars_of(SIGN_IN);
    let n: usize = text.len();
    match position(text, label.as_slice()) {
        None => slice_copy(text),
        Some(i) => {
            proof {
                crate::text::lemma_find(text@, label@);
            }
            let end: usize = i + label.len();
            let mut out = slice_copy(slice_subrange(text, 0, i));
            extend_text(&mut out, "\x1b]8;;");
            extend_text(&mut out, url);
            extend_text(&mut out, "\x1b\\");
            extend_text(&mut out, SIGN_IN);
            extend_text(&mut out, "\x1b]8;;\x1b\\");
            extend(&mut out, slice_subrange(text, end, n));
            assert(out@ =~= linked(text@, url@));
            out
        },
    }
}

/// A row of the conversation, with its styles.
pub fn styled_line(row: &Row, width: usize, color: bool, url: Option<&str>) -> (out: String)
    ensures
        out@ == styled_line_of(
            row@,
            width as nat,
            color,
            match url {
                Some(url) => Some(url@),
                None => None,
            },
        ),
{
    let line = toned(row, width, color);
    if let Some(url) = url {
        if row.role == Role::Note {
            let plain = plain_cells(&row.cells);
            if starts_text(trimmed_start(plain.as_slice()), "· Open Codex sign-in ↗") {
                let line = link(line.as_slice(), url);
                return text_of(line.as_slice());
            }
        }
    }
    text_of(line.as_slice())
}

/// What stands at the left of a row.
pub open spec fn marker_of(row: RowView, color: bool) -> Seq<char> {
    if row.cells.len() > 0 && row.cells[0].tone == Tone::DiffAdded {
        styled(color, "38;2;169;224;184"@, "┃"@)
    } else if row.cells.len() > 0 && row.cells[0].tone == Tone::DiffRemoved {
        styled(color, "38;2;255;134;153"@, "┃"@)
    } else if row.role == Role::User {
        styled(color, "1;38;2;236;74;125"@, "┃"@)
    } else {
        styled(color, "2;38;2;184;57;101"@, "│"@)
    }
}

fn marker(row: &Row, color: bool) -> (out: String)
    ensures
        out@ == marker_of(row@, color),
{
    if row.cells.len() > 0 && row.cells[0].tone == Tone::DiffAdded {
        style_text(color, "38;2;169;224;184", "┃")
    } else if row.cells.len() > 0 && row.cells[0].tone == Tone::DiffRemoved {
        style_text(color, "38;2;255;134;153", "┃")
    } else if row.role == Role::User {
        style_text(color, "1;38;2;236;74;125", "┃")
    } else {
        style_text(color, "2;38;2;184;57;101", "│")
    }
}

pub open spec fn transcript_line_of(
    row: RowView,
    width: nat,
    columns: nat,
    left: nat,
    color: bool,
    url: Option<Seq<char>>,
) -> Seq<char> {
    let inner = if less(width, 3) > 1 {
        less(width, 3)
    } else {
        1
    };
    let text = repeated(' ', left) + marker_of(row, color) + "  "@ + styled_line_of(
        row,
        inner,
        color,
        url,
    );
    if color && row.role == Role::User {
        USER_BACKGROUND@ + replaced(text, "\x1b[0m"@, "\x1b[0m"@ + USER_BACKGROUND@) + repeated(
            ' ',
            less(columns, left + 3 + row.cells.len()),
        ) + "\x1b[0m"@
    } else {
        text
    }
}

/// A row of the conversation, in its margins. The background of a message of
/// the user covers the whole row and nothing else.
pub fn transcript_line(
    row: &Row,
    width: usize,
    columns: usize,
    left: usize,
    color: bool,
    url: Option<&str>,
) -> (out: String)
    ensures
        out@ == transcript_line_of(
            row@,
            width as nat,
            columns as nat,
            left as nat,
            color,
            match url {
                Some(url) => Some(url@),
                None => None,
            },
        ),
{
    let inner: usize = if minus(width, 3) > 1 {
        minus(width, 3)
    } else {
        1
    };
    let mut text = blanks(left);
    text.append(marker(row, color).as_str());
    text.append("  ");
    text.append(styled_line(row, inner, color, url).as_str());
    if color && row.role == Role::User {
        let chars = chars_of(text.as_str());
        let reset = chars_of("\x1b[0m");
        let again = chars_of(cat2("\x1b[0m", USER_BACKGROUND).as_str());
        proof {
            reveal_strlit("\x1b[0m");
        }
        let tinted = replace(chars.as_slice(), reset.as_slice(), again.as_slice());
        let tinted = text_of(tinted.as_slice());
        let cells: usize = row.cells.len();
        let rest: usize = minus(minus(minus(columns, left), 3), cells);
        let filling = blanks(rest);
        assert(rest == less(columns as nat, left as nat + 3 + cells as nat));
        cat4(USER_BACKGROUND, tinted.as_str(), filling.as_str(), "\x1b[0m")
    } else {
        text
    }
}

/// Blanks.
pub fn blanks(n: usize) -> (out: String)
    ensures
        out@ == repeated(' ', n as nat),
{
    let mut out = String::new();
    pad(&mut out, ' ', n);
    assert(out@ =~= repeated(' ', n as nat));
    out
}

// ---------------------------------------------------------------------------
// Messages that wait
// ---------------------------------------------------------------------------

pub open spec fn pending_label(item: ItemView, width: nat) -> Seq<char> {
    let state = if item.sending {
        "Sending"@
    } else {
        "Waiting"@
    };
    let mode = match item.mode {
        QueueMode::Steer => "Steering"@,
        QueueMode::FollowUp => "Follow-up"@,
    };
    let images = if item.images == 0 {
        ""@
    } else {
        " · "@ + decimal(item.images as nat) + " image(s)"@
    };
    clip_of(
        "↳ "@ + state + " · "@ + mode + ": "@ + without_controls(item.text) + images,
        width,
    )
}

/// The row of a message that waits.
pub fn pending_line(item: &PendingItem, width: usize) -> (out: String)
    ensures
        out@ == pending_label(item@, width as nat),
{
    let mut label = copy("↳ ");
    label.append(
        if item.sending {
            "Sending"
        } else {
            "Waiting"
        },
    );
    label.append(" · ");
    label.append(
        match item.mode {
            QueueMode::Steer => "Steering",
            QueueMode::FollowUp => "Follow-up",
        },
    );
    label.append(": ");
    label.append(clean(item.text.as_str()).as_str());
    let images = if item.images == 0 {
        copy("")
    } else {
        cat3(" · ", decimal_text(item.images as u64).as_str(), " image(s)")
    };
    label.append(images.as_str());
    clip(label.as_str(), width)
}

// ---------------------------------------------------------------------------
// The composer
// ---------------------------------------------------------------------------

/// The upper border, with a notice in it.
pub open spec fn top_border_of(notice: Seq<char>, width: nat) -> Seq<char> {
    if notice.len() == 0 {
        "╭"@ + repeated('─', less(width, 2)) + "╮"@
    } else {
        let label = clip_of(notice, less(width, 6));
        "╭─ "@ + label + " "@ + repeated('─', less(width, label.len() + 5)) + "╮"@
    }
}

pub fn top_border(notice: &str, width: usize) -> (out: String)
    ensures
        out@ == top_border_of(notice@, width as nat),
{
    if chars_of(notice).len() == 0 {
        let dashes = dashes(minus(width, 2));
        return cat3("╭", dashes.as_str(), "╮");
    }
    let label = clip(notice, minus(width, 6));
    let n: usize = chars_of(label.as_str()).len();
    let rest: usize = minus(minus(width, n), 5);
    assert(rest == less(width as nat, label@.len() + 5));
    let line = dashes(rest);
    crate::text::cat5("╭─ ", label.as_str(), " ", line.as_str(), "╮")
}

fn dashes(n: usize) -> (out: String)
    ensures
        out@ == repeated('─', n as nat),
{
    let mut out = String::new();
    pad(&mut out, '─', n);
    assert(out@ =~= repeated('─', n as nat));
    out
}

pub open spec fn bottom_border_of(width: nat) -> Seq<char> {
    "╰"@ + repeated('─', less(width, 2)) + "╯"@
}

pub fn bottom_border(width: usize) -> (out: String)
    ensures
        out@ == bottom_border_of(width as nat),
{
    let line = dashes(minus(width, 2));
    cat3("╰", line.as_str(), "╯")
}

/// A row of the draft: `index` is its place among all of them, `start` and
/// `end` bound those that are visible.
pub open spec fn draft_line_of(
    row: Seq<char>,
    index: nat,
    start: nat,
    end: nat,
    total: nat,
    width: nat,
) -> Seq<char> {
    let marker = if index == 0 {
        "❯"@
    } else {
        " "@
    };
    let edge = if index == start && start > 0 {
        "↑"@
    } else if index + 1 == end && end < total {
        "↓"@
    } else {
        "│"@
    };
    "│ "@ + marker + " "@ + row + repeated(' ', less(width, row.len())) + edge
}

pub fn draft_line(row: &str, index: usize, start: usize, end: usize, total: usize, width: usize) -> (out:
    String)
    requires
        index < end <= total,
    ensures
        out@ == draft_line_of(
            row@,
            index as nat,
            start as nat,
            end as nat,
            total as nat,
            width as nat,
        ),
{
    let mut out = copy("│ ");
    out.append(
        if index == 0 {
            "❯"
        } else {
            " "
        },
    );
    out.append(" ");
    out.append(row);
    let n: usize = chars_of(row).len();
    out.append(blanks(minus(width, n)).as_str());
    out.append(
        if index == start && start > 0 {
            "↑"
        } else if index + 1 == end && end < total {
            "↓"
        } else {
            "│"
        },
    );
    out
}

/// What the composer says of the draft.
pub open spec fn notice_of(
    clipboard: Seq<char>,
    input: Option<Seq<char>>,
    images: nat,
    working: bool,
    drafting: bool,
    wsl: bool,
) -> Seq<char> {
    if clipboard.len() > 0 {
        clipboard
    } else if let Some(notice) = input {
        notice
    } else if images > 0 && working {
        decimal(images) + " image(s) attached · Enter steer · "@ + follow_up_key_of(wsl) + " later"@
    } else if images > 0 {
        decimal(images) + " image(s) attached · Ctrl+X remove"@
    } else if working && drafting {
        "Enter steer · "@ + follow_up_key_of(wsl) + " follow-up · Ctrl+Enter newline"@
    } else {
        ""@
    }
}

pub fn notice(
    clipboard: &str,
    input: Option<&str>,
    images: usize,
    working: bool,
    drafting: bool,
    wsl: bool,
) -> (out: String)
    ensures
        out@ == notice_of(
            clipboard@,
            match input {
                Some(notice) => Some(notice@),
                None => None,
            },
            images as nat,
            working,
            drafting,
            wsl,
        ),
{
    if chars_of(clipboard).len() > 0 {
        return copy(clipboard);
    }
    if let Some(notice) = input {
        return copy(notice);
    }
    if images > 0 {
        let count = decimal_text(images as u64);
        if working {
            return cat4(
                count.as_str(),
                " image(s) attached · Enter steer · ",
                follow_up_key(wsl),
                " later",
            );
        }
        return cat2(count.as_str(), " image(s) attached · Ctrl+X remove");
    }
    if working && drafting {
        return cat3("Enter steer · ", follow_up_key(wsl), " follow-up · Ctrl+Enter newline");
    }
    copy("")
}

// ---------------------------------------------------------------------------
// The last row
// ---------------------------------------------------------------------------

/// The status of the work that goes on.
pub struct Work<'a> {
    pub flower: usize,
    pub phase: &'a str,
    pub seconds: u64,
    pub steering: usize,
    pub follow_up: usize,
    pub goal: Option<(usize, usize)>,
}

/// What a [`Work`] holds.
#[verifier::ext_equal]
pub struct WorkView {
    pub flower: usize,
    pub phase: Seq<char>,
    pub seconds: u64,
    pub steering: usize,
    pub follow_up: usize,
    pub goal: Option<(usize, usize)>,
}

impl<'a> View for Work<'a> {
    type V = WorkView;

    open spec fn view(&self) -> WorkView {
        WorkView {
            flower: self.flower,
            phase: self.phase@,
            seconds: self.seconds,
            steering: self.steering,
            follow_up: self.follow_up,
            goal: self.goal,
        }
    }
}

pub open spec fn flower_of(frame: usize) -> Seq<char> {
    if frame == 0 {
        "✿"@
    } else if frame == 1 {
        "❀"@
    } else if frame == 2 {
        "✾"@
    } else {
        "❁"@
    }
}

/// The frames of the flower.
pub fn flower(frame: usize) -> (r: &'static str)
    ensures
        r@ == flower_of(frame),
{
    if frame == 0 {
        "✿"
    } else if frame == 1 {
        "❀"
    } else if frame == 2 {
        "✾"
    } else {
        "❁"
    }
}

pub open spec fn queue_hint_of(steering: usize, follow_up: usize) -> Seq<char> {
    if steering == 0 && follow_up == 0 {
        ""@
    } else {
        " · ↪"@ + decimal(steering as nat) + " ▷"@ + decimal(follow_up as nat)
    }
}

pub open spec fn scrolled_hint_of(scroll: usize) -> Seq<char> {
    if scroll > 0 {
        "  ·  ↑ "@ + decimal(scroll as nat) + " lines"@
    } else {
        ""@
    }
}

/// What the last row is about.
#[derive(Clone, Copy, Debug, PartialEq, Eq, Structural)]
pub struct Focus {
    pub dialog: bool,
    pub disconnected: bool,
    pub suggestions: bool,
    pub sign_in: bool,
}

/// No more is completed than there is, and the numbers are small.
pub open spec fn goal_fits(goal: Option<(usize, usize)>) -> bool {
    goal matches Some((completed, total)) ==> completed <= total <= 50
}

/// Where the program runs.
#[derive(Clone, Copy, Debug, PartialEq, Eq, Structural)]
pub struct Platform {
    pub macos: bool,
    pub wsl: bool,
}

pub open spec fn hint_of(
    focus: Focus,
    work: Option<WorkView>,
    scroll: usize,
    width: nat,
    platform: Platform,
) -> Seq<char> {
    if focus.dialog {
        "Dialog · Esc cancels · your draft is preserved"@
    } else if focus.disconnected {
        "Pi disconnected · /reconnect · /restore · /quit"@
    } else if focus.suggestions {
        "↑↓ choose  ·  Tab complete  ·  Enter run  ·  Esc dismiss"@
    } else if focus.sign_in && platform.macos {
        "Browser sign-in  ·  Ctrl+Y copy link  ·  Esc cancel"@
    } else if focus.sign_in {
        "Open Codex sign-in ↗  ·  Ctrl+Y copy link  ·  Esc cancel"@
    } else if let Some(work) = work {
        working_status_of(
            width,
            flower_of(work.flower),
            work.phase,
            work.seconds as nat,
            queue_hint_of(work.steering, work.follow_up) + scrolled_hint_of(scroll),
            work.goal,
        )
    } else if scroll > 0 {
        "↑ "@ + decimal(scroll as nat) + " lines  ·  Wheel / PgDn to return to latest"@
    } else {
        "Enter send · Ctrl+Enter newline · "@ + paste_key_of(platform.wsl)
            + " image · ↑↓ input · /help"@
    }
}

/// The last row.
pub fn hint(
    focus: Focus,
    work: Option<Work<'_>>,
    scroll: usize,
    width: usize,
    platform: Platform,
) -> (out: String)
    requires
        work matches Some(work) ==> goal_fits(work.goal),
    ensures
        out@ == hint_of(
            focus,
            match work {
                Some(work) => Some(work@),
                None => None,
            },
            scroll,
            width as nat,
            platform,
        ),
{
    if focus.dialog {
        return copy("Dialog · Esc cancels · your draft is preserved");
    }
    if focus.disconnected {
        return copy("Pi disconnected · /reconnect · /restore · /quit");
    }
    if focus.suggestions {
        return copy("↑↓ choose  ·  Tab complete  ·  Enter run  ·  Esc dismiss");
    }
    if focus.sign_in {
        return if platform.macos {
            copy("Browser sign-in  ·  Ctrl+Y copy link  ·  Esc cancel")
        } else {
            copy("Open Codex sign-in ↗  ·  Ctrl+Y copy link  ·  Esc cancel")
        };
    }
    if let Some(work) = work {
        let queue = if work.steering == 0 && work.follow_up == 0 {
            copy("")
        } else {
            cat4(
                " · ↪",
                decimal_text(work.steering as u64).as_str(),
                " ▷",
                decimal_text(work.follow_up as u64).as_str(),
            )
        };
        let scrolled = if scroll > 0 {
            cat3("  ·  ↑ ", decimal_text(scroll as u64).as_str(), " lines")
        } else {
            copy("")
        };
        let more = cat2(queue.as_str(), scrolled.as_str());
        return working_status(
            width,
            flower(work.flower),
            work.phase,
            work.seconds,
            more.as_str(),
            work.goal,
        );
    }
    if scroll > 0 {
        return cat3(
            "↑ ",
            decimal_text(scroll as u64).as_str(),
            " lines  ·  Wheel / PgDn to return to latest",
        );
    }
    cat3(
        "Enter send · Ctrl+Enter newline · ",
        paste_key(platform.wsl),
        " image · ↑↓ input · /help",
    )
}


// ---------------------------------------------------------------------------
// Laws
// ---------------------------------------------------------------------------

proof fn lemma_plain_cells(cells: Seq<Cell>, n: nat)
    requires
        n <= cells.len(),
    ensures
        cells_text(cells, n, false) == cells_plain(cells).take(n as int),
    decreases n,
{
    if n > 0 {
        lemma_plain_cells(cells, (n - 1) as nat);
        assert(cells_plain(cells).take(n as int) =~= cells_plain(cells).take(n - 1).push(
            cells[n - 1].ch,
        ));
    } else {
        assert(cells_plain(cells).take(0) =~= Seq::empty());
    }
}

/// Without color a row is its text and nothing else.
pub proof fn law_rows_are_plain_without_color(row: RowView, width: nat)
    ensures
        styled_line_of(row, width, false, None) == cells_plain(row.cells),
{
    lemma_plain_cells(row.cells, row.cells.len());
    assert(cells_plain(row.cells).take(row.cells.len() as int) =~= cells_plain(row.cells));
}

/// The composer is as wide as its panel.
pub proof fn law_borders_fit(notice: Seq<char>, width: nat)
    requires
        width >= 6,
    ensures
        top_border_of(notice, width).len() == width,
        bottom_border_of(width).len() == width,
{
    reveal_strlit("╭");
    reveal_strlit("╮");
    reveal_strlit("╭─ ");
    reveal_strlit(" ");
    reveal_strlit("╰");
    reveal_strlit("╯");
    reveal_strlit("…");
    crate::display::law_clipping_fits(notice, less(width, 6));
}

// ---------------------------------------------------------------------------
// What a terminal shows
// ---------------------------------------------------------------------------

/// What is written shows a text: without its escape sequences it is that text,
/// whatever follows.
pub open spec fn shows(written: Seq<char>, text: Seq<char>) -> bool {
    forall|b: Seq<char>| #[trigger] strip_ansi_of(written + b) == text + strip_ansi_of(b)
}

/// A text without escape characters and carriage returns.
pub open spec fn printable(text: Seq<char>) -> bool {
    forall|i: int| 0 <= i < text.len() ==> #[trigger] text[i] != '\x1b' && text[i] != '\r'
}

proof fn lemma_shows_both(a: Seq<char>, t: Seq<char>, c: Seq<char>, u: Seq<char>)
    requires
        shows(a, t),
        shows(c, u),
    ensures
        shows(a + c, t + u),
{
    assert forall|b: Seq<char>| #[trigger] strip_ansi_of((a + c) + b) == (t + u) + strip_ansi_of(
        b,
    ) by {
        assert((a + c) + b =~= a + (c + b));
        assert(t + (u + strip_ansi_of(b)) =~= (t + u) + strip_ansi_of(b));
    }
}

proof fn lemma_shows_text(text: Seq<char>)
    requires
        printable(text),
    ensures
        shows(text, text),
    decreases text.len(),
{
    assert forall|b: Seq<char>| #[trigger] strip_ansi_of(text + b) == text + strip_ansi_of(b) by {
        if text.len() == 0 {
            assert(text + b =~= b);
            assert(text + strip_ansi_of(b) =~= strip_ansi_of(b));
        } else {
            let rest = text.skip(1);
            assert(printable(rest)) by {
                assert forall|i: int| 0 <= i < rest.len() implies #[trigger] rest[i] != '\x1b'
                    && rest[i] != '\r' by {
                    assert(rest[i] == text[i + 1]);
                }
            }
            lemma_shows_text(rest);
            let s = text + b;
            assert(s[0] == text[0]);
            assert(s.skip(1) =~= rest + b);
            assert(strip_ansi_of(rest + b) == rest + strip_ansi_of(b));
            assert(seq![s[0]] + (rest + strip_ansi_of(b)) =~= text + strip_ansi_of(b));
        }
    }
}

proof fn lemma_shows_nothing(code: Seq<char>)
    requires
        forall|i: int| 0 <= i < code.len() ==> !('@' <= #[trigger] code[i] && code[i] <= '~'),
    ensures
        shows("\x1b["@ + code + "m"@, Seq::empty()),
{
    reveal_strlit("\x1b[");
    reveal_strlit("m");
    let written = "\x1b["@ + code + "m"@;
    let none = Seq::<char>::empty();
    assert forall|b: Seq<char>| #[trigger] strip_ansi_of(written + b) == none + strip_ansi_of(b) by {
        law_sequences_are_dropped(none, code, 'm', b);
        assert(written + b =~= none + (seq!['\x1b', '['] + code + seq!['m'] + b));
    }
}

proof fn lemma_shows_reset()
    ensures
        shows("\x1b[0m"@, Seq::empty()),
{
    reveal_strlit("\x1b[0m");
    reveal_strlit("\x1b[");
    reveal_strlit("m");
    lemma_shows_nothing(seq!['0']);
    assert("\x1b["@ + seq!['0'] + "m"@ =~= "\x1b[0m"@);
}

proof fn lemma_tone_codes(tone: Tone)
    ensures
        forall|i: int|
            0 <= i < tone_code_of(tone).len() ==> !('@' <= #[trigger] tone_code_of(tone)[i]
                && tone_code_of(tone)[i] <= '~'),
{
    reveal_strlit("");
    reveal_strlit("1;38;2;255;220;230");
    reveal_strlit("3;38;2;255;183;206");
    reveal_strlit("38;2;255;173;197");
    reveal_strlit("1;38;2;236;74;125");
    reveal_strlit("4;38;2;236;74;125");
    reveal_strlit("2");
    reveal_strlit("38;2;169;224;184");
    reveal_strlit("38;2;255;120;149");
    reveal_strlit("38;2;169;224;184;48;2;36;55;44");
    reveal_strlit("38;2;255;134;153;48;2;65;35;49");
    reveal_strlit("38;2;180;172;183;48;2;41;35;46");
}

proof fn lemma_change_shows_nothing(tone: Tone)
    ensures
        shows(change_of(tone), Seq::empty()),
{
    lemma_shows_reset();
    if tone != Tone::Plain {
        lemma_tone_codes(tone);
        lemma_shows_nothing(tone_code_of(tone));
        let none = Seq::<char>::empty();
        let code = "\x1b["@ + tone_code_of(tone) + "m"@;
        lemma_shows_both("\x1b[0m"@, none, code, none);
        assert(none + none =~= none);
        assert("\x1b[0m"@ + code =~= change_of(tone));
    }
}

proof fn lemma_cells_show_their_text(cells: Seq<Cell>, n: nat, color: bool)
    requires
        n <= cells.len(),
        printable(cells_plain(cells)),
    ensures
        shows(cells_text(cells, n, color), cells_plain(cells).take(n as int)),
    decreases n,
{
    let none = Seq::<char>::empty();
    if n == 0 {
        lemma_shows_text(none);
        assert(cells_plain(cells).take(0) =~= none);
    } else {
        let k = (n - 1) as nat;
        let cell = cells[n - 1];
        let text = cells_plain(cells).take(n - 1);
        lemma_cells_show_their_text(cells, k, color);
        let out = cells_text(cells, k, color);
        lemma_change_shows_nothing(cell.tone);
        lemma_shows_both(out, text, change_of(cell.tone), none);
        assert(text + none =~= text);
        let before = if color && cell.tone != tone_before(cells, k, color) {
            out + change_of(cell.tone)
        } else {
            out
        };
        assert(cells_plain(cells)[n - 1] == cell.ch);
        assert(printable(seq![cell.ch]));
        lemma_shows_text(seq![cell.ch]);
        lemma_shows_both(before, text, seq![cell.ch], seq![cell.ch]);
        assert(before + seq![cell.ch] =~= cells_text(cells, n, color));
        assert(text + seq![cell.ch] =~= cells_plain(cells).take(n as int));
    }
}

proof fn lemma_styled_shows(color: bool, code: Seq<char>, text: Seq<char>)
    requires
        printable(text),
        forall|i: int| 0 <= i < code.len() ==> !('@' <= #[trigger] code[i] && code[i] <= '~'),
    ensures
        shows(styled(color, code, text), text),
{
    let none = Seq::<char>::empty();
    lemma_shows_text(text);
    lemma_shows_nothing(code);
    lemma_shows_reset();
    lemma_shows_both("\x1b["@ + code + "m"@, none, text, text);
    assert(none + text =~= text);
    lemma_shows_both("\x1b["@ + code + "m"@ + text, text, "\x1b[0m"@, none);
    assert(text + none =~= text);
}

/// Colors change nothing of what is read: a row shows its characters, and a
/// row of a diff is filled up with blanks.
pub proof fn law_colors_change_no_text(row: RowView, width: nat, color: bool)
    requires
        printable(cells_plain(row.cells)),
    ensures
        ({
            let plain = cells_plain(row.cells);
            shows(
                styled_line_of(row, width, color, None),
                if color && row.role == Role::Diff {
                    plain + repeated(' ', less(width, plain.len()))
                } else {
                    plain
                },
            )
        }),
{
    let none = Seq::<char>::empty();
    let n = row.cells.len();
    let plain = cells_plain(row.cells);
    let text = cells_text(row.cells, n, color);
    lemma_cells_show_their_text(row.cells, n, color);
    assert(plain.take(n as int) =~= plain);
    let fill = repeated(' ', less(width, n));
    lemma_shows_text(fill);
    lemma_shows_both(text, plain, fill, fill);
    lemma_shows_reset();
    lemma_shows_both(text, plain, "\x1b[0m"@, none);
    lemma_shows_both(text + fill, plain + fill, "\x1b[0m"@, none);
    assert(plain + none =~= plain);
    assert((plain + fill) + none =~= plain + fill);
}

/// The bar that stands before a row: a strong one before what the user said
/// and what was changed.
pub open spec fn bar(row: RowView) -> char {
    if row.role == Role::User || (row.cells.len() > 0 && (row.cells[0].tone == Tone::DiffAdded
        || row.cells[0].tone == Tone::DiffRemoved)) {
        '┃'
    } else {
        '│'
    }
}

proof fn lemma_marker_shows(row: RowView, color: bool)
    ensures
        shows(marker_of(row, color), seq![bar(row)]),
{
    reveal_strlit("┃");
    reveal_strlit("│");
    reveal_strlit("38;2;169;224;184");
    reveal_strlit("38;2;255;134;153");
    reveal_strlit("1;38;2;236;74;125");
    reveal_strlit("2;38;2;184;57;101");
    assert("┃"@ =~= seq!['┃']);
    assert("│"@ =~= seq!['│']);
    lemma_styled_shows(color, "38;2;169;224;184"@, "┃"@);
    lemma_styled_shows(color, "38;2;255;134;153"@, "┃"@);
    lemma_styled_shows(color, "1;38;2;236;74;125"@, "┃"@);
    lemma_styled_shows(color, "2;38;2;184;57;101"@, "│"@);
}

/// A row of the conversation is shown behind the margin and a bar, with all of
/// its characters; one of a diff is filled up with blanks.
pub proof fn law_rows_are_shown_behind_a_bar(
    row: RowView,
    width: nat,
    columns: nat,
    left: nat,
    color: bool,
)
    requires
        printable(cells_plain(row.cells)),
        !color || row.role != Role::User,
        width > 4,
    ensures
        shows(
            transcript_line_of(row, width, columns, left, color, None),
            repeated(' ', left) + seq![bar(row)] + seq![' ', ' '] + (if color && row.role
                == Role::Diff {
                cells_plain(row.cells) + repeated(
                    ' ',
                    less((width - 3) as nat, row.cells.len()),
                )
            } else {
                cells_plain(row.cells)
            }),
        ),
{
    let margin = repeated(' ', left);
    let inner = if less(width, 3) > 1 {
        less(width, 3)
    } else {
        1
    };
    let line = styled_line_of(row, inner, color, None);
    law_colors_change_no_text(row, inner, color);
    lemma_shows_text(margin);
    lemma_marker_shows(row, color);
    reveal_strlit("  ");
    assert("  "@ =~= seq![' ', ' ']);
    lemma_shows_text("  "@);
    lemma_shows_both(margin, margin, marker_of(row, color), seq![bar(row)]);
    lemma_shows_both(
        margin + marker_of(row, color),
        margin + seq![bar(row)],
        "  "@,
        seq![' ', ' '],
    );
    lemma_shows_both(
        margin + marker_of(row, color) + "  "@,
        margin + seq![bar(row)] + seq![' ', ' '],
        line,
        if color && row.role == Role::Diff {
            cells_plain(row.cells) + repeated(' ', less(inner, row.cells.len()))
        } else {
            cells_plain(row.cells)
        },
    );
}

/// Where the tone changes, the terminal is told before the character is
/// written; where it stays, nothing is written between the characters.
pub proof fn law_tones_are_set_before_their_text(cells: Seq<Cell>, n: nat)
    requires
        0 < n < cells.len(),
    ensures
        ({
            let before = cells_text(cells, n, true);
            let after = cells_text(cells, n + 1, true);
            let code = tone_code_of(cells[n as int].tone);
            &&& cells[n as int].tone == cells[n - 1].tone ==> after == before.push(
                cells[n as int].ch,
            )
            &&& cells[n as int].tone != cells[n - 1].tone && cells[n as int].tone == Tone::Plain
                ==> after == (before + "\x1b[0m"@).push(cells[n as int].ch)
            &&& cells[n as int].tone != cells[n - 1].tone && cells[n as int].tone != Tone::Plain
                ==> after == (before + ("\x1b[0m"@ + "\x1b["@ + code + "m"@)).push(
                cells[n as int].ch,
            )
        }),
{
}

/// The link is put around its words; the text on both sides stays.
pub proof fn law_links_stand_around_their_words(a: Seq<char>, b: Seq<char>, url: Seq<char>)
    requires
        find(a + SIGN_IN@ + b, SIGN_IN@) == Some(a.len() as int),
    ensures
        linked(a + SIGN_IN@ + b, url) == a + "\x1b]8;;"@ + url + "\x1b\\"@ + SIGN_IN@
            + "\x1b]8;;\x1b\\"@ + b,
{
    let text = a + SIGN_IN@ + b;
    assert(text.take(a.len() as int) =~= a);
    assert(text.skip(a.len() as int + SIGN_IN@.len() as int) =~= b);
}

/// A waiting message is shown with its text, its place and how far it got.
pub proof fn law_waiting_messages_are_named(item: ItemView, width: nat)
    requires
        item.images == 0,
        forall|i: int| 0 <= i < item.text.len() ==> !crate::text::is_control(#[trigger] item.text[i]),
        item.text.len() + 24 <= width,
    ensures
        item.sending && item.mode == QueueMode::Steer ==> pending_label(item, width)
            == "↳ Sending · Steering: "@ + item.text,
        item.sending && item.mode == QueueMode::FollowUp ==> pending_label(item, width)
            == "↳ Sending · Follow-up: "@ + item.text,
        !item.sending && item.mode == QueueMode::Steer ==> pending_label(item, width)
            == "↳ Waiting · Steering: "@ + item.text,
        !item.sending && item.mode == QueueMode::FollowUp ==> pending_label(item, width)
            == "↳ Waiting · Follow-up: "@ + item.text,
{
    crate::text::lemma_clean_text(item.text);
    reveal_strlit("↳ ");
    reveal_strlit("Sending");
    reveal_strlit("Waiting");
    reveal_strlit(" · ");
    reveal_strlit("Steering");
    reveal_strlit("Follow-up");
    reveal_strlit(": ");
    reveal_strlit("");
    reveal_strlit("↳ Sending · Steering: ");
    reveal_strlit("↳ Sending · Follow-up: ");
    reveal_strlit("↳ Waiting · Steering: ");
    reveal_strlit("↳ Waiting · Follow-up: ");
    assert("↳ "@ + "Sending"@ + " · "@ + "Steering"@ + ": "@ + item.text + ""@
        =~= "↳ Sending · Steering: "@ + item.text);
    assert("↳ "@ + "Sending"@ + " · "@ + "Follow-up"@ + ": "@ + item.text + ""@
        =~= "↳ Sending · Follow-up: "@ + item.text);
    assert("↳ "@ + "Waiting"@ + " · "@ + "Steering"@ + ": "@ + item.text + ""@
        =~= "↳ Waiting · Steering: "@ + item.text);
    assert("↳ "@ + "Waiting"@ + " · "@ + "Follow-up"@ + ": "@ + item.text + ""@
        =~= "↳ Waiting · Follow-up: "@ + item.text);
}

/// Every row of the draft is drawn whole, in the same columns; the mark stands
/// before the first one, and an arrow behind a row beyond which there is more.
pub proof fn law_draft_rows_are_drawn_whole(
    row: Seq<char>,
    index: nat,
    start: nat,
    end: nat,
    total: nat,
    width: nat,
)
    requires
        row.len() <= width,
        start <= index < end <= total,
    ensures
        ({
            let line = draft_line_of(row, index, start, end, total, width);
            &&& line.len() == width + 5
            &&& line.subrange(4, 4 + row.len() as int) == row
            &&& line[2] == (if index == 0 {
                '❯'
            } else {
                ' '
            })
            &&& forall|i: int| 4 + row.len() <= i < 4 + width ==> #[trigger] line[i] == ' '
            &&& line.last() == '│' <==> (index > start || start == 0) && (index + 1 < end || end
                == total)
            &&& line.last() == '↑' <==> index == start && start > 0
        }),
{
    reveal_strlit("│ ");
    reveal_strlit("❯");
    reveal_strlit(" ");
    reveal_strlit("↑");
    reveal_strlit("↓");
    reveal_strlit("│");
    let line = draft_line_of(row, index, start, end, total, width);
    assert(line.subrange(4, 4 + row.len() as int) =~= row);
}

/// What Pi has to say comes before what was asked for, and that before the
/// hints on keys; the images are counted.
pub proof fn law_notices_come_first(
    clipboard: Seq<char>,
    notice: Seq<char>,
    images: nat,
    working: bool,
    drafting: bool,
    wsl: bool,
)
    ensures
        clipboard.len() > 0 ==> notice_of(clipboard, Some(notice), images, working, drafting, wsl)
            == clipboard,
        clipboard.len() == 0 ==> notice_of(clipboard, Some(notice), images, working, drafting, wsl)
            == notice,
        clipboard.len() == 0 && images > 0 ==> starts(
            notice_of(clipboard, None, images, working, drafting, wsl),
            decimal(images) + " image(s) attached"@,
        ),
        clipboard.len() == 0 && images == 0 && !working ==> notice_of(
            clipboard,
            None,
            images,
            working,
            drafting,
            wsl,
        ).len() == 0,
{
    reveal_strlit("");
    reveal_strlit(" image(s) attached");
    reveal_strlit(" image(s) attached · Enter steer · ");
    reveal_strlit(" image(s) attached · Ctrl+X remove");
    let text = notice_of(clipboard, None, images, working, drafting, wsl);
    let head = decimal(images) + " image(s) attached"@;
    if clipboard.len() == 0 && images > 0 {
        assert(text.subrange(0, head.len() as int) =~= head);
    }
}

/// The last line speaks of what is in front: a dialog, a lost connection, the
/// suggestions, a sign-in, the work that goes on, and else how far the view is
/// scrolled.
pub proof fn law_hints_speak_of_what_is_in_front(
    focus: Focus,
    work: WorkView,
    scroll: usize,
    width: nat,
    platform: Platform,
)
    ensures
        focus.dialog ==> hint_of(focus, Some(work), scroll, width, platform) == hint_of(
            focus,
            None,
            0,
            width,
            platform,
        ),
        focus.disconnected && !focus.dialog ==> hint_of(focus, Some(work), scroll, width, platform)
            == "Pi disconnected · /reconnect · /restore · /quit"@,
        !focus.dialog && !focus.disconnected && !focus.suggestions && !focus.sign_in ==> hint_of(
            focus,
            Some(work),
            scroll,
            width,
            platform,
        ) == working_status_of(
            width,
            flower_of(work.flower),
            work.phase,
            work.seconds as nat,
            (if work.steering == 0 && work.follow_up == 0 {
                ""@
            } else {
                " · ↪"@ + decimal(work.steering as nat) + " ▷"@ + decimal(work.follow_up as nat)
            }) + (if scroll > 0 {
                "  ·  ↑ "@ + decimal(scroll as nat) + " lines"@
            } else {
                ""@
            }),
            work.goal,
        ),
        !focus.dialog && !focus.disconnected && !focus.suggestions && !focus.sign_in && scroll > 0
            ==> hint_of(focus, None, scroll, width, platform) == "↑ "@ + decimal(scroll as nat)
            + " lines  ·  Wheel / PgDn to return to latest"@,
{
}

// ---------------------------------------------------------------------------
// Messages of the user on their background
// ---------------------------------------------------------------------------

/// What is written with the background set again after every reset.
pub open spec fn on_user_background(written: Seq<char>) -> Seq<char> {
    replaced(written, "\x1b[0m"@, "\x1b[0m"@ + USER_BACKGROUND@)
}

/// No reset begins in what is written and ends behind it, and on the background
/// it shows a text.
pub open spec fn shows_on_background(written: Seq<char>, text: Seq<char>) -> bool {
    &&& forall|b: Seq<char>| #[trigger]
        on_user_background(written + b) == on_user_background(written) + on_user_background(b)
    &&& shows(on_user_background(written), text)
}

proof fn lemma_both_on_background(a: Seq<char>, t: Seq<char>, c: Seq<char>, u: Seq<char>)
    requires
        shows_on_background(a, t),
        shows_on_background(c, u),
    ensures
        shows_on_background(a + c, t + u),
{
    assert(on_user_background(a + c) == on_user_background(a) + on_user_background(c));
    assert forall|b: Seq<char>| #[trigger]
        on_user_background((a + c) + b) == on_user_background(a + c) + on_user_background(b) by {
        assert((a + c) + b =~= a + (c + b));
        assert(on_user_background(a) + (on_user_background(c) + on_user_background(b)) =~= (
        on_user_background(a) + on_user_background(c)) + on_user_background(b));
    }
    lemma_shows_both(on_user_background(a), t, on_user_background(c), u);
}

proof fn lemma_no_reset_in(a: Seq<char>, b: Seq<char>)
    requires
        forall|i: int| 1 <= i < a.len() ==> #[trigger] a[i] != '\x1b',
        a.len() > 0 ==> a[0] != '\x1b' || (a.len() > 2 && a[2] != '0'),
    ensures
        on_user_background(a + b) == a + on_user_background(b),
    decreases a.len(),
{
    reveal_strlit("\x1b[0m");
    let p = "\x1b[0m"@;
    let s = a + b;
    if a.len() == 0 {
        assert(s =~= b);
        assert(a + on_user_background(b) =~= on_user_background(b));
    } else {
        if occurs_at(s, p, 0) {
            assert(s.subrange(0, 4)[0] == s[0]);
            assert(s.subrange(0, 4)[2] == s[2]);
            assert(p[0] == '\x1b' && p[2] == '0');
        }
        let rest = a.drop_first();
        assert forall|i: int| 1 <= i < rest.len() implies #[trigger] rest[i] != '\x1b' by {
            assert(rest[i] == a[i + 1]);
        }
        if rest.len() > 0 {
            assert(rest[0] == a[1]);
        }
        lemma_no_reset_in(rest, b);
        assert(s.drop_first() =~= rest + b);
        assert(s[0] == a[0]);
        assert(seq![a[0]] + (rest + on_user_background(b)) =~= a + on_user_background(b));
    }
}

proof fn lemma_kept_on_background(a: Seq<char>, t: Seq<char>)
    requires
        forall|i: int| 1 <= i < a.len() ==> #[trigger] a[i] != '\x1b',
        a.len() > 0 ==> a[0] != '\x1b' || (a.len() > 2 && a[2] != '0'),
        shows(a, t),
    ensures
        shows_on_background(a, t),
{
    let none = Seq::<char>::empty();
    lemma_no_reset_in(a, none);
    assert(a + none =~= a);
    assert(on_user_background(none) =~= none);
    assert(on_user_background(a) == a);
    assert forall|b: Seq<char>| #[trigger]
        on_user_background(a + b) == on_user_background(a) + on_user_background(b) by {
        lemma_no_reset_in(a, b);
    }
}

proof fn lemma_text_on_background(text: Seq<char>)
    requires
        printable(text),
    ensures
        shows_on_background(text, text),
{
    lemma_shows_text(text);
    lemma_kept_on_background(text, text);
}

proof fn lemma_user_background_shows_nothing()
    ensures
        shows(USER_BACKGROUND@, Seq::empty()),
{
    let code = "48;2;57;30;46"@;
    reveal_strlit("48;2;57;30;46");
    reveal_strlit("\x1b[");
    reveal_strlit("m");
    reveal_strlit("\x1b[48;2;57;30;46m");
    lemma_shows_nothing(code);
    assert("\x1b["@ + code + "m"@ =~= USER_BACKGROUND@);
}

proof fn lemma_reset_on_background()
    ensures
        shows_on_background("\x1b[0m"@, Seq::empty()),
{
    reveal_strlit("\x1b[0m");
    let p = "\x1b[0m"@;
    let none = Seq::<char>::empty();
    let again = p + USER_BACKGROUND@;
    assert forall|b: Seq<char>| #[trigger] on_user_background(p + b) == again + on_user_background(
        b,
    ) by {
        crate::lines::law_occurrences_are_replaced(none, p, b, again);
        assert(none + p + b =~= p + b);
        assert(none + again + on_user_background(b) =~= again + on_user_background(b));
    }
    assert(p + none =~= p);
    assert(on_user_background(none) =~= none);
    assert(on_user_background(p + none) == again + on_user_background(none));
    assert(on_user_background(p) =~= again);
    lemma_shows_reset();
    lemma_user_background_shows_nothing();
    lemma_shows_both(p, none, USER_BACKGROUND@, none);
    assert(none + none =~= none);
}

proof fn lemma_code_on_background(code: Seq<char>)
    requires
        forall|i: int|
            0 <= i < code.len() ==> !('@' <= #[trigger] code[i] && code[i] <= '~') && code[i]
                != '\x1b',
        code.len() > 0,
        code[0] != '0',
    ensures
        shows_on_background("\x1b["@ + code + "m"@, Seq::empty()),
{
    reveal_strlit("\x1b[");
    reveal_strlit("m");
    let a = "\x1b["@ + code + "m"@;
    lemma_shows_nothing(code);
    assert(a[2] == code[0]);
    assert forall|i: int| 1 <= i < a.len() implies #[trigger] a[i] != '\x1b' by {
        if 2 <= i < a.len() - 1 {
            assert(a[i] == code[i - 2]);
        }
    }
    lemma_kept_on_background(a, Seq::empty());
}

proof fn lemma_tone_codes_begin(tone: Tone)
    requires
        tone != Tone::Plain,
    ensures
        tone_code_of(tone).len() > 0,
        tone_code_of(tone)[0] != '0',
        forall|i: int|
            0 <= i < tone_code_of(tone).len() ==> #[trigger] tone_code_of(tone)[i] != '\x1b',
{
    reveal_strlit("1;38;2;255;220;230");
    reveal_strlit("3;38;2;255;183;206");
    reveal_strlit("38;2;255;173;197");
    reveal_strlit("1;38;2;236;74;125");
    reveal_strlit("4;38;2;236;74;125");
    reveal_strlit("2");
    reveal_strlit("38;2;169;224;184");
    reveal_strlit("38;2;255;120;149");
    reveal_strlit("38;2;169;224;184;48;2;36;55;44");
    reveal_strlit("38;2;255;134;153;48;2;65;35;49");
    reveal_strlit("38;2;180;172;183;48;2;41;35;46");
}

proof fn lemma_change_on_background(tone: Tone)
    ensures
        shows_on_background(change_of(tone), Seq::empty()),
{
    let none = Seq::<char>::empty();
    lemma_reset_on_background();
    if tone != Tone::Plain {
        lemma_tone_codes(tone);
        lemma_tone_codes_begin(tone);
        let code = "\x1b["@ + tone_code_of(tone) + "m"@;
        lemma_code_on_background(tone_code_of(tone));
        lemma_both_on_background("\x1b[0m"@, none, code, none);
        assert(none + none =~= none);
        assert("\x1b[0m"@ + code =~= change_of(tone));
    }
}

proof fn lemma_cells_on_background(cells: Seq<Cell>, n: nat)
    requires
        n <= cells.len(),
        printable(cells_plain(cells)),
    ensures
        shows_on_background(cells_text(cells, n, true), cells_plain(cells).take(n as int)),
    decreases n,
{
    let none = Seq::<char>::empty();
    if n == 0 {
        lemma_text_on_background(none);
        assert(cells_plain(cells).take(0) =~= none);
    } else {
        let k = (n - 1) as nat;
        let cell = cells[n - 1];
        let text = cells_plain(cells).take(n - 1);
        lemma_cells_on_background(cells, k);
        let out = cells_text(cells, k, true);
        lemma_change_on_background(cell.tone);
        lemma_both_on_background(out, text, change_of(cell.tone), none);
        assert(text + none =~= text);
        let before = if cell.tone != tone_before(cells, k, true) {
            out + change_of(cell.tone)
        } else {
            out
        };
        assert(cells_plain(cells)[n - 1] == cell.ch);
        lemma_text_on_background(seq![cell.ch]);
        lemma_both_on_background(before, text, seq![cell.ch], seq![cell.ch]);
        assert(before + seq![cell.ch] =~= cells_text(cells, n, true));
        assert(text + seq![cell.ch] =~= cells_plain(cells).take(n as int));
    }
}

proof fn lemma_user_marker_on_background(row: RowView)
    ensures
        shows_on_background(marker_of(row, true), seq![bar(row)]),
{
    let none = Seq::<char>::empty();
    reveal_strlit("┃");
    reveal_strlit("│");
    assert("┃"@ =~= seq!['┃']);
    assert("│"@ =~= seq!['│']);
    let (code, mark) = if row.cells.len() > 0 && row.cells[0].tone == Tone::DiffAdded {
        ("38;2;169;224;184"@, "┃"@)
    } else if row.cells.len() > 0 && row.cells[0].tone == Tone::DiffRemoved {
        ("38;2;255;134;153"@, "┃"@)
    } else if row.role == Role::User {
        ("1;38;2;236;74;125"@, "┃"@)
    } else {
        ("2;38;2;184;57;101"@, "│"@)
    };
    reveal_strlit("38;2;169;224;184");
    reveal_strlit("38;2;255;134;153");
    reveal_strlit("1;38;2;236;74;125");
    reveal_strlit("2;38;2;184;57;101");
    lemma_code_on_background(code);
    lemma_text_on_background(mark);
    lemma_reset_on_background();
    lemma_both_on_background("\x1b["@ + code + "m"@, none, mark, mark);
    assert(none + mark =~= mark);
    lemma_both_on_background("\x1b["@ + code + "m"@ + mark, mark, "\x1b[0m"@, none);
    assert(mark + none =~= mark);
}

/// A message of the user is shown whole on its background, behind the margin
/// and a strong bar, and the background reaches to the last column.
pub proof fn law_messages_of_the_user_are_shown(row: RowView, width: nat, columns: nat, left: nat)
    requires
        row.role == Role::User,
        printable(cells_plain(row.cells)),
    ensures
        shows(
            transcript_line_of(row, width, columns, left, true, None),
            repeated(' ', left) + seq!['┃'] + seq![' ', ' '] + cells_plain(row.cells) + repeated(
                ' ',
                less(columns, left + 3 + row.cells.len()),
            ),
        ),
{
    let none = Seq::<char>::empty();
    let margin = repeated(' ', left);
    let inner = if less(width, 3) > 1 {
        less(width, 3)
    } else {
        1
    };
    let n = row.cells.len();
    let plain = cells_plain(row.cells);
    let cells = cells_text(row.cells, n, true);
    let line = styled_line_of(row, inner, true, None);
    let marker = marker_of(row, true);
    lemma_cells_on_background(row.cells, n);
    assert(plain.take(n as int) =~= plain);
    lemma_reset_on_background();
    lemma_both_on_background(cells, plain, "\x1b[0m"@, none);
    assert(plain + none =~= plain);
    assert(shows_on_background(line, plain));
    lemma_text_on_background(margin);
    lemma_user_marker_on_background(row);
    reveal_strlit("  ");
    assert("  "@ =~= seq![' ', ' ']);
    lemma_text_on_background("  "@);
    lemma_both_on_background(margin, margin, marker, seq![bar(row)]);
    lemma_both_on_background(margin + marker, margin + seq![bar(row)], "  "@, seq![' ', ' ']);
    let text = margin + marker + "  "@ + line;
    let said = margin + seq!['┃'] + seq![' ', ' '] + plain;
    lemma_both_on_background(
        margin + marker + "  "@,
        margin + seq![bar(row)] + seq![' ', ' '],
        line,
        plain,
    );
    assert(shows(on_user_background(text), said));
    let fill = repeated(' ', less(columns, left + 3 + n));
    lemma_user_background_shows_nothing();
    lemma_shows_both(USER_BACKGROUND@, none, on_user_background(text), said);
    assert(none + said =~= said);
    lemma_shows_text(fill);
    lemma_shows_both(USER_BACKGROUND@ + on_user_background(text), said, fill, fill);
    lemma_shows_reset();
    lemma_shows_both(
        USER_BACKGROUND@ + on_user_background(text) + fill,
        said + fill,
        "\x1b[0m"@,
        none,
    );
    assert((said + fill) + none =~= said + fill);
}

}
