//! Pieces of the screen: clipping, escape sequences, viewports and the status
//! line.
use crate::json::{Json, Tree};
use crate::lines::{join, replace, replaced};
use crate::number::{decimal, decimal_text};
use crate::text::{
    cat2, cat5, chars_of, copy, pad, repeated, text_of,
};
use vstd::prelude::*;
use vstd::slice::slice_subrange;

verus! {

/// The background of the screen; the terminal's own is never changed.
pub const BASE_BACKGROUND: &'static str = "\x1b[48;2;48;10;36m";

// ---------------------------------------------------------------------------
// Clipping
// ---------------------------------------------------------------------------

/// A text within `width` columns.
pub open spec fn clip_of(text: Seq<char>, width: nat) -> Seq<char> {
    if text.len() <= width {
        text
    } else if width == 0 {
        ""@
    } else {
        text.take(width - 1) + "…"@
    }
}

pub fn clip(text: &str, width: usize) -> (out: String)
    ensures
        out@ == clip_of(text@, width as nat),
{
    let chars = chars_of(text);
    if chars.len() <= width {
        copy(text)
    } else if width == 0 {
        copy("")
    } else {
        let part = slice_subrange(chars.as_slice(), 0, width - 1);
        assert(part@ =~= text@.take(width - 1));
        cat2(text_of(part).as_str(), "…")
    }
}

/// The end of a text within `width` columns.
pub open spec fn clip_tail_of(text: Seq<char>, width: nat) -> Seq<char> {
    if text.len() <= width {
        text
    } else {
        text.skip(text.len() - width)
    }
}

pub fn clip_tail(text: &str, width: usize) -> (out: String)
    ensures
        out@ == clip_tail_of(text@, width as nat),
{
    let chars = chars_of(text);
    let n: usize = chars.len();
    if n <= width {
        copy(text)
    } else {
        let part = slice_subrange(chars.as_slice(), n - width, n);
        assert(part@ =~= text@.skip(n - width));
        text_of(part)
    }
}

// ---------------------------------------------------------------------------
// Escape sequences
// ---------------------------------------------------------------------------

/// What follows a sequence after its bracket: everything after its final
/// character.
pub open spec fn after_sequence(s: Seq<char>) -> Seq<char>
    decreases s.len(),
{
    if s.len() == 0 {
        s
    } else if '@' <= s[0] && s[0] <= '~' {
        s.skip(1)
    } else {
        after_sequence(s.skip(1))
    }
}

proof fn lemma_after_sequence(s: Seq<char>)
    ensures
        after_sequence(s).len() <= s.len(),
    decreases s.len(),
{
    if s.len() > 0 && !('@' <= s[0] && s[0] <= '~') {
        lemma_after_sequence(s.skip(1));
    }
}

/// A text without escape sequences and carriage returns.
pub open spec fn strip_ansi_of(s: Seq<char>) -> Seq<char>
    decreases s.len(),
    via strip_ansi_decreases
{
    if s.len() == 0 {
        Seq::empty()
    } else if s[0] == '\x1b' {
        if s.len() < 2 {
            Seq::empty()
        } else if s[1] == '[' {
            strip_ansi_of(after_sequence(s.skip(2)))
        } else {
            strip_ansi_of(s.skip(2))
        }
    } else if s[0] == '\r' {
        strip_ansi_of(s.skip(1))
    } else {
        seq![s[0]] + strip_ansi_of(s.skip(1))
    }
}

#[via_fn]
proof fn strip_ansi_decreases(s: Seq<char>) {
    if s.len() >= 2 {
        lemma_after_sequence(s.skip(2));
    }
}

pub fn strip_ansi(text: &[char]) -> (out: Vec<char>)
    ensures
        out@ == strip_ansi_of(text@),
{
    let mut out: Vec<char> = Vec::new();
    let n: usize = text.len();
    let mut i: usize = 0;
    assert(text@.skip(0) =~= text@);
    assert(out@ =~= Seq::empty());
    while i < n
        invariant
            i <= n,
            n == text@.len(),
            strip_ansi_of(text@) =~= out@ + strip_ansi_of(text@.skip(i as int)),
        decreases n - i,
    {
        let ghost rest = text@.skip(i as int);
        let c = text[i];
        if c == '\x1b' {
            if n - i < 2 {
                i = n;
                assert(text@.skip(i as int) =~= Seq::empty());
            } else if text[i + 1] == '[' {
                i = i + 2;
                let ghost tail = rest.skip(2);
                assert(text@.skip(i as int) =~= tail);
                let ghost start = i;
                let mut done = false;
                while i < n && !done
                    invariant
                        start <= i <= n,
                        n == text@.len(),
                        if done {
                            after_sequence(tail) == text@.skip(i as int)
                        } else {
                            after_sequence(tail) == after_sequence(text@.skip(i as int))
                        },
                    decreases n - i,
                {
                    let p = text[i];
                    assert(text@.skip(i as int).skip(1) =~= text@.skip(i + 1));
                    done = '@' <= p && p <= '~';
                    i = i + 1;
                }
                proof {
                    if !done {
                        assert(text@.skip(i as int) =~= Seq::empty());
                    }
                }
            } else {
                i = i + 2;
                assert(text@.skip(i as int) =~= rest.skip(2));
            }
        } else {
            if c != '\r' {
                out.push(c);
            }
            i = i + 1;
            assert(text@.skip(i as int) =~= rest.skip(1));
        }
    }
    assert(text@.skip(i as int) =~= Seq::empty());
    out
}

/// A line on the background of the screen, which returns after each reset.
pub open spec fn paint_background_of(frame: Seq<char>, color: bool) -> Seq<char> {
    if color {
        BASE_BACKGROUND@ + replaced(frame, "\x1b[0m"@, "\x1b[0m"@ + BASE_BACKGROUND@)
    } else {
        frame
    }
}

pub fn paint_background(frame: &str, color: bool) -> (out: String)
    ensures
        out@ == paint_background_of(frame@, color),
{
    if color {
        let chars = chars_of(frame);
        let reset = chars_of("\x1b[0m");
        proof {
            reveal_strlit("\x1b[0m");
        }
        let again = chars_of(cat2("\x1b[0m", BASE_BACKGROUND).as_str());
        let mut out = chars_of(BASE_BACKGROUND);
        let rest = replace(chars.as_slice(), reset.as_slice(), again.as_slice());
        crate::text::extend(&mut out, rest.as_slice());
        text_of(out.as_slice())
    } else {
        copy(frame)
    }
}

// ---------------------------------------------------------------------------
// Viewports
// ---------------------------------------------------------------------------

/// The rows of the transcript that are visible.
#[derive(Clone, Copy, Debug, PartialEq, Eq, Structural)]
pub struct Viewport {
    pub start: usize,
    pub end: usize,
    pub scroll: usize,
}

/// A full page stays visible at the oldest position.
pub open spec fn viewport_of(total: nat, visible: nat, requested: nat) -> (nat, nat, nat) {
    if visible == 0 {
        (0, 0, 0)
    } else {
        let most = if total > visible {
            (total - visible) as nat
        } else {
            0
        };
        let scroll = if requested < most {
            requested
        } else {
            most
        };
        let end = (total - scroll) as nat;
        (
            if end > visible {
                (end - visible) as nat
            } else {
                0
            },
            end,
            scroll,
        )
    }
}

pub fn transcript_viewport(total: usize, visible: usize, requested_scroll: usize) -> (r: Viewport)
    ensures
        (r.start as nat, r.end as nat, r.scroll as nat) == viewport_of(
            total as nat,
            visible as nat,
            requested_scroll as nat,
        ),
        r.start <= r.end <= total,
{
    if visible == 0 {
        return Viewport { start: 0, end: 0, scroll: 0 };
    }
    let most: usize = if total > visible {
        total - visible
    } else {
        0
    };
    let scroll: usize = if requested_scroll < most {
        requested_scroll
    } else {
        most
    };
    let end: usize = total - scroll;
    Viewport {
        start: if end > visible {
            end - visible
        } else {
            0
        },
        end,
        scroll,
    }
}

// ---------------------------------------------------------------------------
// Status
// ---------------------------------------------------------------------------

pub open spec fn less(a: nat, b: nat) -> nat {
    if a > b {
        (a - b) as nat
    } else {
        0
    }
}

/// How much of a goal is reached.
pub open spec fn percent_of(completed: nat, total: nat) -> nat {
    completed * 100 / total
}

/// The length of the bar of a goal.
pub open spec fn bar_len(width: nat, suffix: nat) -> nat {
    let room = less(width, 6 + suffix);
    if room < 1 {
        1
    } else if room > 20 {
        20
    } else {
        room
    }
}

pub open spec fn goal_suffix(completed: nat, total: nat) -> Seq<char> {
    "  "@ + decimal(completed) + "/"@ + decimal(total) + " · "@ + decimal(
        percent_of(completed, total),
    ) + "%"@
}

/// The bar of a goal.
pub open spec fn goal_line_of(width: nat, completed: nat, total: nat) -> Seq<char> {
    let suffix = goal_suffix(completed, total);
    let length = bar_len(width, suffix.len());
    let filled = completed * length / total;
    clip_of(
        "Goal  "@ + repeated('█', filled) + repeated('░', less(length, filled)) + suffix,
        width,
    )
}

/// What stands at the right of the status line.
pub open spec fn goal_text(width: nat, completed: nat, total: nat) -> Seq<char> {
    if width >= 60 {
        goal_line_of(width, completed, total)
    } else {
        "Goal "@ + decimal(completed) + "/"@ + decimal(total) + " · "@ + decimal(
            percent_of(completed, total),
        ) + "%"@
    }
}

/// The status line while Pi works: what it is at on the left, and the goal on
/// the right where there is one and there is room.
pub open spec fn working_status_of(
    width: nat,
    flower: Seq<char>,
    phase: Seq<char>,
    seconds: nat,
    scrolled: Seq<char>,
    goal: Option<(usize, usize)>,
) -> Seq<char> {
    let left = flower + " "@ + phase + " · "@ + decimal(seconds) + "s · Esc stop"@ + scrolled;
    match goal {
        Some((completed, total)) => if total > 0 {
            let right = goal_text(width, completed as nat, total as nat);
            let space = less(width, right.len() + 1);
            if space < 5 {
                clip_of(left, width)
            } else {
                let left = clip_of(left, space);
                left + repeated(' ', less(width, left.len() + right.len())) + right
            }
        } else {
            clip_of(left, width)
        },
        None => clip_of(left, width),
    }
}

pub(crate) fn minus(a: usize, b: usize) -> (r: usize)
    ensures
        r == less(a as nat, b as nat),
{
    if a > b {
        a - b
    } else {
        0
    }
}

fn percent(completed: usize, total: usize) -> (n: u64)
    requires
        0 < total,
        completed <= total,
        completed * 100 <= usize::MAX,
    ensures
        n == percent_of(completed as nat, total as nat),
{
    (completed * 100 / total) as u64
}

pub fn goal_line(width: usize, completed: usize, total: usize) -> (out: String)
    requires
        0 < total,
        completed <= total,
        completed * 100 <= usize::MAX,
    ensures
        out@ == goal_line_of(width as nat, completed as nat, total as nat),
{
    let mut suffix = cat5(
        "  ",
        decimal_text(completed as u64).as_str(),
        "/",
        decimal_text(total as u64).as_str(),
        " · ",
    );
    suffix.append(decimal_text(percent(completed, total)).as_str());
    suffix.append("%");
    let taken: usize = chars_of(suffix.as_str()).len();
    let room: usize = minus(minus(width, 6), taken);
    let length: usize = if room < 1 {
        1
    } else if room > 20 {
        20
    } else {
        room
    };
    assert(length == bar_len(width as nat, taken as nat));
    assert(completed * length <= completed * 100) by (nonlinear_arith)
        requires
            0 <= completed,
            1 <= length <= 20,
    ;
    let filled: usize = completed * length / total;
    let mut bar = copy("Goal  ");
    pad(&mut bar, '█', filled);
    pad(&mut bar, '░', minus(length, filled));
    bar.append(suffix.as_str());
    clip(bar.as_str(), width)
}

pub fn working_status(
    width: usize,
    flower: &str,
    phase: &str,
    seconds: u64,
    scrolled: &str,
    goal: Option<(usize, usize)>,
) -> (out: String)
    requires
        goal matches Some((completed, total)) ==> completed <= total && completed * 100
            <= usize::MAX,
    ensures
        out@ == working_status_of(
            width as nat,
            flower@,
            phase@,
            seconds as nat,
            scrolled@,
            goal,
        ),
{
    let mut left = cat5(flower, " ", phase, " · ", decimal_text(seconds).as_str());
    left.append("s · Esc stop");
    left.append(scrolled);
    let (completed, total): (usize, usize) = match goal {
        Some((completed, total)) => (completed, total),
        None => (0, 0),
    };
    if total == 0 {
        return clip(left.as_str(), width);
    }
    let right = if width >= 60 {
        goal_line(width, completed, total)
    } else {
        let mut short = cat5(
            "Goal ",
            decimal_text(completed as u64).as_str(),
            "/",
            decimal_text(total as u64).as_str(),
            " · ",
        );
        short.append(decimal_text(percent(completed, total)).as_str());
        short.append("%");
        short
    };
    let taken: usize = chars_of(right.as_str()).len();
    let space: usize = minus(minus(width, 1), taken);
    assert(space == less(width as nat, taken as nat + 1));
    if space < 5 {
        return clip(left.as_str(), width);
    }
    let mut out = clip(left.as_str(), space);
    let used: usize = chars_of(out.as_str()).len();
    let gap: usize = minus(minus(width, used), taken);
    assert(gap == less(width as nat, used as nat + taken as nat));
    pad(&mut out, ' ', gap);
    out.append(right.as_str());
    out
}

// ---------------------------------------------------------------------------
// Messages
// ---------------------------------------------------------------------------

/// The texts among the first `n` blocks.
pub open spec fn block_texts(blocks: Seq<Tree>, n: nat) -> Seq<Seq<char>>
    decreases n,
{
    if n == 0 {
        Seq::empty()
    } else {
        let rest = block_texts(blocks, (n - 1) as nat);
        let block = blocks[n - 1];
        if block.says("type"@, "text"@) && block.text_at("text"@) is Some {
            rest.push(block.text_at("text"@)->0)
        } else {
            rest
        }
    }
}

/// How many of the first `n` blocks are images.
pub open spec fn image_count(blocks: Seq<Tree>, n: nat) -> nat
    decreases n,
{
    if n == 0 {
        0
    } else {
        image_count(blocks, (n - 1) as nat) + if blocks[n - 1].says("type"@, "image"@) {
            1nat
        } else {
            0nat
        }
    }
}

/// The text of a user's message, and how many images it has.
pub open spec fn user_content_of(content: Tree) -> (Seq<char>, nat) {
    match content {
        Tree::Text(text) => (text, 0),
        Tree::List(blocks) => (
            join(block_texts(blocks, blocks.len()), "\n"@),
            image_count(blocks, blocks.len()),
        ),
        _ => (""@, 0),
    }
}

pub fn user_content(content: &Json) -> (r: (String, usize))
    ensures
        (r.0@, r.1 as nat) == user_content_of(content@),
{
    match content {
        Json::Text(text) => (copy(text.as_str()), 0),
        Json::List(blocks) => {
            let ghost trees = content@->List_0;
            let mut parts: Vec<String> = Vec::new();
            let mut images: usize = 0;
            let mut i: usize = 0;
            assert(crate::lines::texts(parts@) =~= Seq::empty());
            while i < blocks.len()
                invariant
                    i <= blocks@.len(),
                    trees.len() == blocks@.len(),
                    forall|j: int| 0 <= j < blocks@.len() ==> (#[trigger] blocks@[j])@ == trees[j],
                    crate::lines::texts(parts@) == block_texts(trees, i as nat),
                    images == image_count(trees, i as nat),
                    images <= i,
                decreases blocks@.len() - i,
            {
                let block = &blocks[i];
                assert(block@ == trees[i as int]);
                if block.says("type", "text") {
                    if let Some(text) = block.text_at("text") {
                        let part = copy(text);
                        proof {
                            crate::lines::lemma_texts_push(parts@, part);
                        }
                        parts.push(part);
                    }
                }
                if block.says("type", "image") {
                    images = images + 1;
                }
                i = i + 1;
            }
            (crate::lines::join_texts(&parts, "\n"), images)
        },
        _ => (copy(""), 0),
    }
}

// ---------------------------------------------------------------------------
// Laws
// ---------------------------------------------------------------------------

/// A clipped text fits, and a text that fits is not changed.
pub proof fn law_clipping_fits(text: Seq<char>, width: nat)
    ensures
        clip_of(text, width).len() <= width,
        text.len() <= width ==> clip_of(text, width) == text,
{
    reveal_strlit("…");
    reveal_strlit("");
}

/// Scrolling stops at a full page: where there is enough, all of the page is
/// used, at the oldest position too.
pub proof fn law_viewport_is_a_full_page(total: nat, visible: nat, requested: nat)
    requires
        visible > 0,
    ensures
        ({
            let (start, end, scroll) = viewport_of(total, visible, requested);
            &&& start <= end <= total
            &&& end - start <= visible
            &&& total >= visible ==> end - start == visible
            &&& total < visible ==> start == 0 && end == total
            &&& scroll <= requested
        }),
{
}

/// No escape character is left in a stripped text.
pub proof fn law_stripped_text_has_no_escapes(s: Seq<char>)
    ensures
        !strip_ansi_of(s).contains('\x1b'),
        !strip_ansi_of(s).contains('\r'),
    decreases s.len(),
{
    if s.len() > 0 {
        if s[0] == '\x1b' {
            if s.len() >= 2 {
                lemma_after_sequence(s.skip(2));
                law_stripped_text_has_no_escapes(after_sequence(s.skip(2)));
                law_stripped_text_has_no_escapes(s.skip(2));
            }
        } else {
            law_stripped_text_has_no_escapes(s.skip(1));
            let rest = strip_ansi_of(s.skip(1));
            if s[0] != '\r' {
                let all = seq![s[0]] + rest;
                assert forall|i: int| 0 <= i < all.len() implies all[i] != '\x1b' && all[i]
                    != '\r' by {
                    if i > 0 {
                        assert(all[i] == rest[i - 1]);
                        assert(rest.contains(rest[i - 1]));
                    }
                }
            }
        }
    }
}

/// A text without escapes and carriage returns is not changed.
pub proof fn law_plain_text_is_kept(s: Seq<char>)
    requires
        !s.contains('\x1b'),
        !s.contains('\r'),
    ensures
        strip_ansi_of(s) == s,
    decreases s.len(),
{
    if s.len() > 0 {
        assert(s.contains(s[0]));
        assert forall|i: int| 0 <= i < s.skip(1).len() implies s.skip(1)[i] != '\x1b' && s.skip(
            1,
        )[i] != '\r' by {
            assert(s.contains(s[i + 1]));
        }
        law_plain_text_is_kept(s.skip(1));
        assert(seq![s[0]] + s.skip(1) =~= s);
    } else {
        assert(strip_ansi_of(s) =~= s);
    }
}

/// Without color a line is painted as it is.
pub proof fn law_no_background_without_color(frame: Seq<char>)
    ensures
        paint_background_of(frame, false) == frame,
{
}

/// The status line never exceeds its width.
pub proof fn law_status_fits(
    width: nat,
    flower: Seq<char>,
    phase: Seq<char>,
    seconds: nat,
    scrolled: Seq<char>,
    goal: Option<(usize, usize)>,
)
    ensures
        working_status_of(width, flower, phase, seconds, scrolled, goal).len() <= width,
{
    let left = flower + " "@ + phase + " · "@ + decimal(seconds) + "s · Esc stop"@ + scrolled;
    law_clipping_fits(left, width);
    if goal is Some {
        let (completed, total) = goal->0;
        let right = goal_text(width, completed as nat, total as nat);
        law_clipping_fits(left, less(width, right.len() + 1));
    }
}

/// What is cut off a text ends with an ellipsis; what is left is the beginning
/// of the text.
pub proof fn law_clipped_texts_keep_their_beginning(text: Seq<char>, width: nat)
    requires
        0 < width < text.len(),
    ensures
        clip_of(text, width).len() == width,
        clip_of(text, width).last() == '…',
        forall|i: int| 0 <= i < width - 1 ==> #[trigger] clip_of(text, width)[i] == text[i],
{
    reveal_strlit("…");
}

/// Of a text that is cut in front the end is left.
pub proof fn law_clipped_tails_keep_their_end(text: Seq<char>, width: nat)
    ensures
        text.len() <= width ==> clip_tail_of(text, width) == text,
        text.len() > width ==> clip_tail_of(text, width).len() == width,
        text.len() > width ==> forall|i: int|
            0 <= i < width ==> #[trigger] clip_tail_of(text, width)[i] == text[text.len() - width
                + i],
{
}

proof fn lemma_after_parameters(p: Seq<char>, c: char, b: Seq<char>)
    requires
        forall|i: int| 0 <= i < p.len() ==> !('@' <= #[trigger] p[i] && p[i] <= '~'),
        '@' <= c && c <= '~',
    ensures
        after_sequence(p + seq![c] + b) == b,
    decreases p.len(),
{
    let s = p + seq![c] + b;
    if p.len() == 0 {
        assert(s.skip(1) =~= b);
    } else {
        assert(s[0] == p[0]);
        assert(s.skip(1) =~= p.skip(1) + seq![c] + b);
        assert forall|i: int| 0 <= i < p.skip(1).len() implies !('@' <= #[trigger] p.skip(1)[i]
            && p.skip(1)[i] <= '~') by {
            assert(p.skip(1)[i] == p[i + 1]);
        }
        lemma_after_parameters(p.skip(1), c, b);
    }
}

/// An escape sequence is dropped, up to its final character and no further;
/// what stands before it and what follows it stays.
pub proof fn law_sequences_are_dropped(a: Seq<char>, p: Seq<char>, c: char, b: Seq<char>)
    requires
        forall|i: int| 0 <= i < a.len() ==> #[trigger] a[i] != '\x1b' && a[i] != '\r',
        forall|i: int| 0 <= i < p.len() ==> !('@' <= #[trigger] p[i] && p[i] <= '~'),
        '@' <= c && c <= '~',
    ensures
        strip_ansi_of(a + (seq!['\x1b', '['] + p + seq![c] + b)) == a + strip_ansi_of(b),
    decreases a.len(),
{
    let tail = seq!['\x1b', '['] + p + seq![c] + b;
    let s = a + tail;
    if a.len() == 0 {
        assert(s =~= tail);
        assert(s.skip(2) =~= p + seq![c] + b);
        lemma_after_parameters(p, c, b);
        assert(a + strip_ansi_of(b) =~= strip_ansi_of(b));
    } else {
        assert(s[0] == a[0]);
        assert(s.skip(1) =~= a.skip(1) + tail);
        assert forall|i: int| 0 <= i < a.skip(1).len() implies #[trigger] a.skip(1)[i] != '\x1b'
            && a.skip(1)[i] != '\r' by {
            assert(a.skip(1)[i] == a[i + 1]);
        }
        law_sequences_are_dropped(a.skip(1), p, c, b);
        assert(seq![s[0]] + (a.skip(1) + strip_ansi_of(b)) =~= a + strip_ansi_of(b));
    }
}

/// A view is scrolled by what was asked for, as far as there is something
/// above: it ends that far above the last row, and shows a full page where
/// there is one.
pub proof fn law_views_end_where_they_are_scrolled(total: nat, visible: nat, requested: nat)
    requires
        visible > 0,
    ensures
        ({
            let (start, end, scroll) = viewport_of(total, visible, requested);
            &&& end + scroll == total
            &&& requested + visible <= total ==> scroll == requested
            &&& requested + visible > total && total >= visible ==> scroll + visible == total
            &&& total < visible ==> scroll == 0 && start == 0 && end == total
            &&& total >= visible ==> end == start + visible
        }),
{
}

/// The bar of a goal is filled as far as the goal is reached: not at all in
/// the beginning, and wholly in the end.
pub proof fn law_goals_are_measured(total: nat, length: nat)
    requires
        total > 0,
    ensures
        percent_of(total, total) == 100,
        percent_of(0, total) == 0,
        total * length / total == length,
        0 * length / total == 0,
        forall|done: nat| done <= total ==> #[trigger] percent_of(done, total) <= 100,
{
    assert(total * 100 / total == 100) by (nonlinear_arith)
        requires
            total > 0,
    ;
    assert(total * length / total == length) by (nonlinear_arith)
        requires
            total > 0,
    ;
    assert(0 * length / total == 0) by (nonlinear_arith)
        requires
            total > 0,
    ;
    assert(0 * 100 / total == 0) by (nonlinear_arith)
        requires
            total > 0,
    ;
    assert forall|done: nat| done <= total implies #[trigger] percent_of(done, total) <= 100 by {
        assert(done * 100 / total <= 100) by (nonlinear_arith)
            requires
                done <= total,
                total > 0,
        ;
    }
}

/// The bar is as long as there is room for, and its full and its empty part
/// make it up.
pub proof fn law_goal_bars_are_whole(width: nat, completed: nat, total: nat)
    requires
        0 < total,
        completed <= total,
        goal_suffix(completed, total).len() + 26 <= width,
    ensures
        goal_line_of(width, completed, total) == "Goal  "@ + repeated(
            '█',
            completed * 20 / total,
        ) + repeated('░', (20 - completed * 20 / total) as nat) + goal_suffix(completed, total),
        completed * 20 / total <= 20,
{
    assert(completed * 20 / total <= 20) by (nonlinear_arith)
        requires
            completed <= total,
            total > 0,
    ;
    assert(completed * 20 / total >= 0) by (nonlinear_arith)
        requires
            total > 0,
    ;
    reveal_strlit("Goal  ");
}

/// While Pi works the status says at what, for how long, and how to stop it.
pub proof fn law_the_status_says_what_goes_on(
    width: nat,
    flower: Seq<char>,
    phase: Seq<char>,
    seconds: nat,
    scrolled: Seq<char>,
)
    requires
        (flower + " "@ + phase + " · "@ + decimal(seconds) + "s · Esc stop"@ + scrolled).len()
            <= width,
    ensures
        working_status_of(width, flower, phase, seconds, scrolled, None) == flower + " "@ + phase
            + " · "@ + decimal(seconds) + "s · Esc stop"@ + scrolled,
{
}

/// Every text of a user's message is part of its content, on lines of its
/// own, and every image is counted.
pub proof fn law_user_messages_are_read_whole(blocks: Seq<Tree>, block: Tree)
    ensures
        block.says("type"@, "image"@) ==> user_content_of(Tree::List(blocks.push(block))) == (
            user_content_of(Tree::List(blocks)).0,
            user_content_of(Tree::List(blocks)).1 + 1,
        ),
        block.says("type"@, "text"@) && block.text_at("text"@) is Some ==> user_content_of(
            Tree::List(blocks.push(block)),
        ) == (
            if block_texts(blocks, blocks.len()).len() > 0 {
                user_content_of(Tree::List(blocks)).0 + "\n"@ + block.text_at("text"@)->0
            } else {
                block.text_at("text"@)->0
            },
            user_content_of(Tree::List(blocks)).1,
        ),
{
    reveal_strlit("image");
    reveal_strlit("text");
    assert("image"@.len() == 5 && "text"@.len() == 4);
    lemma_blocks_push(blocks, block, blocks.len());
    if block.says("type"@, "text"@) && block.text_at("text"@) is Some {
        crate::lines::law_joined_parts_follow_one_another(
            block_texts(blocks, blocks.len()),
            block.text_at("text"@)->0,
            "\n"@,
        );
    }
}

proof fn lemma_blocks_push(blocks: Seq<Tree>, block: Tree, n: nat)
    requires
        n <= blocks.len(),
    ensures
        block_texts(blocks.push(block), n) == block_texts(blocks, n),
        image_count(blocks.push(block), n) == image_count(blocks, n),
    decreases n,
{
    if n > 0 {
        lemma_blocks_push(blocks, block, (n - 1) as nat);
    }
}

/// On a colored screen the background is set in front, and set again after
/// every reset; the rest of the line stays.
pub proof fn law_the_background_returns(a: Seq<char>, b: Seq<char>)
    requires
        forall|i: int|
            0 <= i < a.len() ==> !crate::text::occurs_at(a + "\x1b[0m"@ + b, "\x1b[0m"@, i),
        forall|i: int| !crate::text::occurs_at(b, "\x1b[0m"@, i),
    ensures
        paint_background_of(a + "\x1b[0m"@ + b, true) == BASE_BACKGROUND@ + (a + ("\x1b[0m"@
            + BASE_BACKGROUND@) + b),
        paint_background_of(b, true) == BASE_BACKGROUND@ + b,
{
    reveal_strlit("\x1b[0m");
    let reset = "\x1b[0m"@;
    crate::lines::law_occurrences_are_replaced(a, reset, b, reset + BASE_BACKGROUND@);
    crate::lines::law_nothing_else_is_replaced(b, reset, reset + BASE_BACKGROUND@);
}

}
