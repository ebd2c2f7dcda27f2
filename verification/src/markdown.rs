//! Lightweight terminal Markdown for chat transcripts. This is a display
//! transform only: saved messages keep the original Markdown text.
use crate::lines::{fields, lines, rows, split_fields, split_lines};
use crate::text::{
    after_prefix, chars_of, contains, digit, ends, ends_with, extend, find, find_char, index_of,
    is_digit, is_letter, is_white, position, same_chars, slice_copy, starts, starts_text,
    strip_prefix, text_of, trim, trim_end_of, trim_start, trim_start_of, trimmed, trimmed_end_of,
    trimmed_start, trimmed_start_of, white,
};
use vstd::prelude::*;
use vstd::slice::slice_subrange;
use vstd::utf8::encode_utf8;

verus! {

#[derive(Clone, Copy, Debug, PartialEq, Eq, Structural)]
pub enum Tone {
    Plain,
    Strong,
    Emphasis,
    Code,
    Heading,
    Link,
    Muted,
    Activity,
    Success,
    Error,
    DiffAdded,
    DiffRemoved,
    DiffContext,
}

#[derive(Clone, Copy, Debug, PartialEq, Eq, Structural)]
pub enum Role {
    User,
    Assistant,
    Note,
    Diff,
}

#[derive(Clone, Copy, Debug, PartialEq, Eq, Structural)]
pub struct Cell {
    pub ch: char,
    pub tone: Tone,
}

/// A row of the screen.
#[derive(Debug)]
pub struct Row {
    pub role: Role,
    pub cells: Vec<Cell>,
}

/// What a [`Row`] holds.
#[verifier::ext_equal]
pub struct RowView {
    pub role: Role,
    pub cells: Seq<Cell>,
}

impl View for Row {
    type V = RowView;

    open spec fn view(&self) -> RowView {
        RowView { role: self.role, cells: self.cells@ }
    }
}

pub open spec fn row_views(rows: Seq<Row>) -> Seq<RowView> {
    Seq::new(rows.len(), |i: int| rows[i]@)
}

pub open spec fn cell(ch: char, tone: Tone) -> Cell {
    Cell { ch, tone }
}

/// A text in one tone.
pub open spec fn toned(text: Seq<char>, tone: Tone) -> Seq<Cell> {
    Seq::new(text.len(), |i: int| cell(text[i], tone))
}

fn push(cells: &mut Vec<Cell>, text: &[char], tone: Tone)
    ensures
        final(cells)@ == old(cells)@ + toned(text@, tone),
{
    let ghost before = cells@;
    let mut i: usize = 0;
    assert(before + toned(text@.take(0), tone) =~= before);
    while i < text.len()
        invariant
            i <= text@.len(),
            cells@ == before + toned(text@.take(i as int), tone),
        decreases text@.len() - i,
    {
        proof {
            assert(toned(text@.take(i + 1), tone) =~= toned(text@.take(i as int), tone).push(
                cell(text@[i as int], tone),
            ));
        }
        cells.push(Cell { ch: text[i], tone });
        i = i + 1;
        assert(cells@ =~= before + toned(text@.take(i as int), tone));
    }
    assert(text@.take(i as int) =~= text@);
}

fn push_text(cells: &mut Vec<Cell>, text: &str, tone: Tone)
    ensures
        final(cells)@ == old(cells)@ + toned(text@, tone),
{
    let chars = chars_of(text);
    push(cells, chars.as_slice(), tone);
}

fn push_cells(cells: &mut Vec<Cell>, more: &Vec<Cell>)
    ensures
        final(cells)@ == old(cells)@ + more@,
{
    let ghost before = cells@;
    let mut i: usize = 0;
    while i < more.len()
        invariant
            i <= more@.len(),
            cells@ == before + more@.take(i as int),
        decreases more@.len() - i,
    {
        cells.push(more[i]);
        i = i + 1;
        assert(cells@ =~= before + more@.take(i as int));
    }
    assert(more@.take(i as int) =~= more@);
}

fn push_rows(rows: &mut Vec<Row>, more: Vec<Row>)
    ensures
        row_views(final(rows)@) == row_views(old(rows)@) + row_views(more@),
{
    let ghost before = rows@;
    let ghost tail = more@;
    let mut more = more;
    rows.append(&mut more);
    assert(row_views(rows@) =~= row_views(before) + row_views(tail));
}

// ---------------------------------------------------------------------------
// Inline styles
// ---------------------------------------------------------------------------

/// What `char::is_alphanumeric` says of a character.
pub uninterp spec fn alphanumeric(c: char) -> bool;

/// `char::is_alphanumeric` tells letters and numbers by the Unicode tables;
/// among the ASCII characters these are the letters and digits.
#[verifier::external_body]
fn is_alphanumeric(c: char) -> (r: bool)
    ensures
        r == alphanumeric(c),
        (c as u32) < 128 ==> r == (is_letter(c) || is_digit(c)),
{
    c.is_alphanumeric()
}

/// A character that a backslash makes literal.
pub open spec fn escapable(c: char) -> bool {
    c == '\\' || c == '*' || c == '`' || c == '_' || c == '[' || c == ']'
}

/// The styles that are open, and what was written so far.
#[verifier::ext_equal]
pub struct Inline {
    pub strong: bool,
    pub emphasis: bool,
    pub code: bool,
    pub cells: Seq<Cell>,
}

impl Inline {
    pub open spec fn tone(self, default: Tone) -> Tone {
        if self.code {
            Tone::Code
        } else if self.strong {
            Tone::Strong
        } else if self.emphasis {
            Tone::Emphasis
        } else {
            default
        }
    }
}

/// `rest` begins with a doubled star or underscore.
pub open spec fn doubled(rest: Seq<char>) -> bool {
    rest.len() >= 2 && rest[0] == rest[1] && (rest[0] == '*' || rest[0] == '_')
}

/// An underscore within a word.
pub open spec fn within_word(rest: Seq<char>, cells: Seq<Cell>) -> bool {
    &&& rest[0] == '_'
    &&& cells.len() > 0
    &&& alphanumeric(cells.last().ch)
    &&& rest.len() >= 2
    &&& alphanumeric(rest[1])
}

/// Where the text and the address of the link at the beginning of `rest` end.
pub open spec fn link_ends(rest: Seq<char>) -> Option<(int, int)> {
    if rest[0] != '[' {
        None
    } else {
        match find(rest, "]("@) {
            None => None,
            Some(end) => match index_of(rest.skip(end + 2), ')') {
                None => None,
                Some(close) => Some((end, end + 2 + close)),
            },
        }
    }
}

pub open spec fn has_link(rest: Seq<char>) -> bool {
    link_ends(rest) matches Some((_, close)) && 0 <= close < rest.len()
}

/// What is written of `rest`: markers that are closed change the style, all
/// others stay visible.
pub open spec fn inline_from(rest: Seq<char>, default: Tone, s: Inline) -> Seq<Cell>
    decreases rest.len(),
{
    let tone = s.tone(default);
    if rest.len() == 0 {
        s.cells
    } else if rest[0] == '\\' && rest.len() >= 2 && escapable(rest[1]) {
        inline_from(
            rest.skip(2),
            default,
            Inline { cells: s.cells.push(cell(rest[1], tone)), ..s },
        )
    } else if rest[0] == '`' && (s.code || rest.skip(1).contains('`')) {
        inline_from(rest.skip(1), default, Inline { code: !s.code, ..s })
    } else if !s.code && doubled(rest) {
        if s.strong || contains(rest.skip(2), rest.take(2)) {
            inline_from(rest.skip(2), default, Inline { strong: !s.strong, ..s })
        } else {
            inline_from(
                rest.skip(2),
                default,
                Inline { cells: s.cells + toned(rest.take(2), tone), ..s },
            )
        }
    } else if !s.code && within_word(rest, s.cells) {
        inline_from(
            rest.skip(1),
            default,
            Inline { cells: s.cells.push(cell('_', tone)), ..s },
        )
    } else if !s.code && (rest[0] == '*' || rest[0] == '_') && (s.emphasis || rest.skip(1).contains(
        rest[0],
    )) {
        inline_from(rest.skip(1), default, Inline { emphasis: !s.emphasis, ..s })
    } else if !s.code && has_link(rest) {
        let (end, close) = link_ends(rest)->0;
        inline_from(
            rest.skip(close + 1),
            default,
            Inline { cells: s.cells + toned(rest.subrange(1, end), Tone::Link), ..s },
        )
    } else {
        inline_from(
            rest.skip(1),
            default,
            Inline { cells: s.cells.push(cell(rest[0], tone)), ..s },
        )
    }
}

/// A line of prose with its styles.
pub open spec fn inlined(text: Seq<char>, default: Tone) -> Seq<Cell> {
    inline_from(
        text,
        default,
        Inline { strong: false, emphasis: false, code: false, cells: Seq::empty() },
    )
}

fn holds(s: &[char], c: char) -> (r: bool)
    ensures
        r == s@.contains(c),
{
    match find_char(s, c) {
        Some(i) => {
            assert(s@[i as int] == c);
            true
        },
        None => false,
    }
}

fn find_link(rest: &[char]) -> (r: Option<(usize, usize)>)
    requires
        rest@.len() > 0,
    ensures
        match r {
            Some((end, close)) => link_ends(rest@) == Some((end as int, close as int)) && 1 <= end
                < close < rest@.len(),
            None => link_ends(rest@) is None,
        },
{
    if rest[0] != '[' {
        return None;
    }
    let mark = chars_of("](");
    proof {
        reveal_strlit("](");
        crate::text::lemma_find(rest@, "]("@);
    }
    let end: usize = match position(rest, mark.as_slice()) {
        Some(end) => end,
        None => {
            return None;
        },
    };
    proof {
        assert(rest@.subrange(end as int, end + 2)[0] == "]("@[0]);
    }
    let n: usize = rest.len();
    let tail = slice_subrange(rest, end + 2, n);
    assert(tail@ =~= rest@.skip(end + 2));
    match find_char(tail, ')') {
        Some(close) => Some((end, end + 2 + close)),
        None => None,
    }
}

pub fn inline(text: &[char], default: Tone) -> (out: Vec<Cell>)
    ensures
        out@ == inlined(text@, default),
{
    let mut cells: Vec<Cell> = Vec::new();
    let mut strong = false;
    let mut emphasis = false;
    let mut code = false;
    let mut pos: usize = 0;
    let n: usize = text.len();
    assert(text@.skip(0) =~= text@);
    assert(cells@ =~= Seq::empty());
    while pos < n
        invariant
            pos <= n,
            n == text@.len(),
            inlined(text@, default) == inline_from(
                text@.skip(pos as int),
                default,
                (Inline { strong, emphasis, code, cells: cells@ }),
            ),
        decreases n - pos,
    {
        let rest = slice_subrange(text, pos, n);
        assert(rest@ =~= text@.skip(pos as int));
        let ghost s = Inline { strong, emphasis, code, cells: cells@ };
        let tone = if code {
            Tone::Code
        } else if strong {
            Tone::Strong
        } else if emphasis {
            Tone::Emphasis
        } else {
            default
        };
        let first = rest[0];
        if first == '\\' && rest.len() >= 2 {
            let c = rest[1];
            if c == '\\' || c == '*' || c == '`' || c == '_' || c == '[' || c == ']' {
                cells.push(Cell { ch: c, tone });
                pos = pos + 2;
                assert(text@.skip(pos as int) =~= rest@.skip(2));
                continue;
            }
        }
        let tail = slice_subrange(rest, 1, rest.len());
        assert(tail@ =~= rest@.skip(1));
        assert(text@.skip(pos + 1) =~= rest@.skip(1));
        if first == '`' && (code || holds(tail, '`')) {
            code = !code;
            pos = pos + 1;
            continue;
        }
        if !code {
            if rest.len() >= 2 && first == rest[1] && (first == '*' || first == '_') {
                let pair = slice_subrange(rest, 0, 2);
                let after = slice_subrange(rest, 2, rest.len());
                assert(pair@ =~= rest@.take(2));
                assert(after@ =~= rest@.skip(2));
                assert(text@.skip(pos + 2) =~= rest@.skip(2));
                proof {
                    crate::text::lemma_find(after@, pair@);
                }
                if strong || position(after, pair).is_some() {
                    strong = !strong;
                } else {
                    push(&mut cells, pair, tone);
                }
                pos = pos + 2;
                continue;
            }
            if first == '_' && cells.len() > 0 && rest.len() >= 2 && is_alphanumeric(
                cells[cells.len() - 1].ch,
            ) && is_alphanumeric(rest[1]) {
                cells.push(Cell { ch: '_', tone });
                pos = pos + 1;
                continue;
            }
            if (first == '*' || first == '_') && (emphasis || holds(tail, first)) {
                emphasis = !emphasis;
                pos = pos + 1;
                continue;
            }
            if let Some((end, close)) = find_link(rest) {
                let label = slice_subrange(rest, 1, end);
                push(&mut cells, label, Tone::Link);
                pos = pos + close + 1;
                assert(text@.skip(pos as int) =~= rest@.skip(close + 1));
                continue;
            }
        }
        cells.push(Cell { ch: first, tone });
        pos = pos + 1;
    }
    assert(text@.skip(pos as int) =~= Seq::empty());
    cells
}

// ---------------------------------------------------------------------------
// Wrapping
// ---------------------------------------------------------------------------

pub open spec fn blank(cell: Cell) -> bool {
    is_white(cell.ch)
}

/// The place of the last blank among the first `n` cells.
pub open spec fn last_blank(cells: Seq<Cell>, n: int) -> Option<int>
    decreases n,
{
    if n <= 0 {
        None
    } else if blank(cells[n - 1]) {
        Some(n - 1)
    } else {
        last_blank(cells, n - 1)
    }
}

/// How many cells stand on a row of `capacity` columns: all that fit, up to a
/// blank where there is one not too far to the left.
pub open spec fn row_take(cells: Seq<Cell>, capacity: int) -> int {
    if cells.len() <= capacity {
        cells.len() as int
    } else {
        match last_blank(cells, capacity) {
            Some(p) => if p >= capacity / 3 {
                p
            } else {
                capacity
            },
            None => capacity,
        }
    }
}

pub open spec fn without_blank_start(cells: Seq<Cell>) -> Seq<Cell>
    decreases cells.len(),
{
    if cells.len() > 0 && blank(cells[0]) {
        without_blank_start(cells.skip(1))
    } else {
        cells
    }
}

pub open spec fn without_blank_end(cells: Seq<Cell>) -> Seq<Cell>
    decreases cells.len(),
{
    if cells.len() > 0 && blank(cells.last()) {
        without_blank_end(cells.drop_last())
    } else {
        cells
    }
}

/// A row after the first is indented, where there is room.
pub open spec fn indented(first: bool, width: int) -> bool {
    !first && width > 4
}

pub open spec fn indent_of(first: bool, width: int) -> Seq<Cell> {
    if indented(first, width) {
        toned("  "@, Tone::Plain)
    } else {
        Seq::empty()
    }
}

pub open spec fn capacity_of(first: bool, width: int) -> int {
    if indented(first, width) {
        width - 2
    } else {
        width
    }
}

/// The rows of some cells. Blanks at a break are dropped.
pub open spec fn wrap_from(cells: Seq<Cell>, width: int, role: Role, first: bool) -> Seq<RowView>
    decreases cells.len(),
{
    if cells.len() == 0 || width < 1 {
        Seq::empty()
    } else {
        let take = row_take(cells, capacity_of(first, width));
        let row = indent_of(first, width) + cells.take(take);
        let rest = cells.skip(take);
        if rest.len() == 0 {
            seq![RowView { role, cells: row }]
        } else {
            let next = without_blank_start(rest);
            if next.len() >= cells.len() {
                Seq::empty()
            } else {
                seq![RowView { role, cells: without_blank_end(row) }] + wrap_from(
                    next,
                    width,
                    role,
                    false,
                )
            }
        }
    }
}

/// The rows of a line; an empty line is an empty row.
pub open spec fn wrapped(cells: Seq<Cell>, width: int, role: Role) -> Seq<RowView> {
    if cells.len() == 0 {
        seq![RowView { role, cells }]
    } else {
        wrap_from(cells, width, role, true)
    }
}

proof fn lemma_last_blank(cells: Seq<Cell>, n: int)
    requires
        0 <= n <= cells.len(),
    ensures
        last_blank(cells, n) matches Some(p) ==> 0 <= p < n && blank(cells[p]),
    decreases n,
{
    if n > 0 && !blank(cells[n - 1]) {
        lemma_last_blank(cells, n - 1);
    }
}

proof fn lemma_without_blank_start(cells: Seq<Cell>)
    ensures
        without_blank_start(cells).len() <= cells.len(),
        cells.len() > 0 && blank(cells[0]) ==> without_blank_start(cells).len() < cells.len(),
    decreases cells.len(),
{
    if cells.len() > 0 && blank(cells[0]) {
        lemma_without_blank_start(cells.skip(1));
    }
}

/// A row always takes something: cells, or the blanks after it.
proof fn lemma_wrap_progress(cells: Seq<Cell>, capacity: int)
    requires
        cells.len() > 0,
        capacity >= 1,
    ensures
        0 <= row_take(cells, capacity) <= cells.len(),
        row_take(cells, capacity) <= capacity,
        without_blank_start(cells.skip(row_take(cells, capacity))).len() < cells.len(),
{
    let take = row_take(cells, capacity);
    if cells.len() > capacity {
        lemma_last_blank(cells, capacity);
    }
    lemma_without_blank_start(cells.skip(take));
    if take == 0 {
        assert(cells.skip(0)[0] == cells[0]);
    }
}

fn find_take(cells: &[Cell], capacity: usize) -> (take: usize)
    requires
        capacity >= 1,
    ensures
        take == row_take(cells@, capacity as int),
        take <= cells@.len(),
{
    if cells.len() <= capacity {
        return cells.len();
    }
    let mut n: usize = capacity;
    while n > 0
        invariant
            n <= capacity < cells@.len(),
            last_blank(cells@, capacity as int) == last_blank(cells@, n as int),
        decreases n,
    {
        if white(cells[n - 1].ch) {
            if n - 1 >= capacity / 3 {
                return n - 1;
            }
            return capacity;
        }
        n = n - 1;
    }
    capacity
}

pub fn wrap_cells(cells: &Vec<Cell>, width: usize, role: Role) -> (out: Vec<Row>)
    requires
        width >= 1,
    ensures
        row_views(out@) == wrapped(cells@, width as int, role),
{
    let mut out: Vec<Row> = Vec::new();
    if cells.len() == 0 {
        out.push(Row { role, cells: Vec::new() });
        assert(row_views(out@)[0].cells =~= cells@);
        assert(row_views(out@) =~= wrapped(cells@, width as int, role));
        return out;
    }
    let n: usize = cells.len();
    let mut pos: usize = 0;
    let mut first = true;
    assert(cells@.skip(0) =~= cells@);
    assert(row_views(out@) =~= Seq::empty());
    while pos < n
        invariant
            width >= 1,
            pos <= n,
            n == cells@.len(),
            wrapped(cells@, width as int, role) =~= row_views(out@) + wrap_from(
                cells@.skip(pos as int),
                width as int,
                role,
                first,
            ),
        decreases n - pos,
    {
        let left = slice_subrange(cells.as_slice(), pos, n);
        assert(left@ =~= cells@.skip(pos as int));
        let indent = !first && width > 4;
        let capacity: usize = if indent {
            width - 2
        } else {
            width
        };
        let take: usize = find_take(left, capacity);
        proof {
            lemma_wrap_progress(left@, capacity as int);
        }
        let mut row: Vec<Cell> = Vec::new();
        if indent {
            push_text(&mut row, "  ", Tone::Plain);
        }
        assert(row@ =~= indent_of(first, width as int));
        let mut i: usize = 0;
        let ghost start = row@;
        while i < take
            invariant
                i <= take <= left@.len(),
                row@ == start + left@.take(i as int),
            decreases take - i,
        {
            row.push(left[i]);
            i = i + 1;
            assert(row@ =~= start + left@.take(i as int));
        }
        let ghost before = out@;
        let ghost whole = row@;
        pos = pos + take;
        assert(cells@.skip(pos as int) =~= left@.skip(take as int));
        if pos < n {
            while row.len() > 0 && white(row[row.len() - 1].ch)
                invariant
                    without_blank_end(row@) == without_blank_end(whole),
                decreases row@.len(),
            {
                let _ = row.pop();
            }
            let ghost rest = cells@.skip(pos as int);
            while pos < n && white(cells[pos].ch)
                invariant
                    pos <= n,
                    n == cells@.len(),
                    without_blank_start(cells@.skip(pos as int)) == without_blank_start(rest),
                decreases n - pos,
            {
                assert(cells@.skip(pos as int).skip(1) =~= cells@.skip(pos + 1));
                pos = pos + 1;
            }
            assert(without_blank_start(cells@.skip(pos as int)) =~= cells@.skip(pos as int));
        }
        out.push(Row { role, cells: row });
        first = false;
        proof {
            assert(row_views(out@) =~= row_views(before).push(RowView { role, cells: row@ }));
            assert(wrap_from(Seq::<Cell>::empty(), width as int, role, false) =~= Seq::empty());
            if pos >= n {
                assert(cells@.skip(pos as int) =~= Seq::empty());
            }
        }
    }
    assert(cells@.skip(pos as int) =~= Seq::empty());
    assert(wrap_from(cells@.skip(pos as int), width as int, role, first) =~= Seq::empty());
    assert(row_views(out@) =~= wrapped(cells@, width as int, role));
    out
}


// ---------------------------------------------------------------------------
// Blocks
// ---------------------------------------------------------------------------

pub open spec fn trim_bars(s: Seq<char>) -> Seq<char> {
    trim_end_of(trim_start_of(s, '|'), '|')
}

/// How often `c` occurs.
pub open spec fn tally(s: Seq<char>, c: char) -> nat
    decreases s.len(),
{
    if s.len() == 0 {
        0
    } else {
        tally(s.drop_last(), c) + if s.last() == c {
            1nat
        } else {
            0nat
        }
    }
}

/// A column of dashes, with colons for its alignment.
pub open spec fn ruled(column: Seq<char>) -> bool {
    let column = trim(column);
    tally(column, '-') >= 3 && forall|i: int|
        0 <= i < column.len() ==> (#[trigger] column[i] == '-' || column[i] == ':' || column[i]
            == ' ')
}

/// A line between bars.
pub open spec fn barred(line: Seq<char>) -> bool {
    starts(line, "|"@) && ends(line, "|"@)
}

/// A line that separates the head of a table from its rows.
pub open spec fn table_separator_of(line: Seq<char>) -> bool {
    let line = trim(line);
    barred(line) && forall|i: int|
        0 <= i < fields(trim_bars(line), '|').len() ==> ruled(
            #[trigger] fields(trim_bars(line), '|')[i],
        )
}

/// The number of an ordered item, and its text.
pub open spec fn ordered_item_of(text: Seq<char>) -> Option<(Seq<char>, Seq<char>)> {
    match index_of(text, '.') {
        None => None,
        Some(split) => {
            let number = text.take(split);
            if number.len() == 0 || !(forall|i: int|
                0 <= i < number.len() ==> is_digit(#[trigger] number[i])) {
                None
            } else {
                match strip_prefix(text.skip(split), ". "@) {
                    Some(rest) => Some((number, rest)),
                    None => None,
                }
            }
        },
    }
}

/// The columns of a table's row.
pub open spec fn table_cells(columns: Seq<Seq<char>>, tone: Tone) -> Seq<Cell>
    decreases columns.len(),
{
    if columns.len() == 0 {
        Seq::empty()
    } else {
        let before = table_cells(columns.drop_last(), tone);
        (if columns.len() > 1 {
            before + toned("  │  "@, Tone::Muted)
        } else {
            before
        }) + inlined(trim(columns.last()), tone)
    }
}

/// The text of a heading.
pub open spec fn heading_of(line: Seq<char>) -> Option<Seq<char>> {
    match strip_prefix(line, "# "@) {
        Some(text) => Some(text),
        None => match strip_prefix(line, "## "@) {
            Some(text) => Some(text),
            None => strip_prefix(line, "### "@),
        },
    }
}

/// The text of a list's item.
pub open spec fn item_of(line: Seq<char>) -> Option<Seq<char>> {
    match strip_prefix(line, "- "@) {
        Some(text) => Some(text),
        None => strip_prefix(line, "* "@),
    }
}

/// How far an item is indented: as its source, up to eight columns.
pub open spec fn item_indent(content: Seq<char>) -> nat {
    let n = encode_utf8(content).len() - encode_utf8(trim_start(content)).len();
    if n < 0 {
        0
    } else if n > 8 {
        8
    } else {
        n as nat
    }
}

/// A line of prose in an answer, before the line `next`.
pub open spec fn prose(content: Seq<char>, next: Option<Seq<char>>) -> Seq<Cell> {
    let line = trim_start(content);
    if barred(line) {
        table_cells(
            fields(trim_bars(line), '|'),
            if next is Some && table_separator_of(trim(next->0)) {
                Tone::Strong
            } else {
                Tone::Plain
            },
        )
    } else if let Some(text) = heading_of(line) {
        inlined(text, Tone::Heading)
    } else if let Some(text) = strip_prefix(line, "> "@) {
        toned("┃ "@, Tone::Muted) + inlined(text, Tone::Plain)
    } else if let Some(text) = item_of(line) {
        toned(crate::text::repeated(' ', item_indent(content)), Tone::Plain) + toned(
            "• "@,
            Tone::Heading,
        ) + inlined(text, Tone::Plain)
    } else if let Some((number, text)) = ordered_item_of(line) {
        toned(number + ". "@, Tone::Heading) + inlined(text, Tone::Plain)
    } else if line == "---"@ || line == "***"@ || line == "___"@ {
        toned("────────"@, Tone::Muted)
    } else {
        inlined(content, Tone::Plain)
    }
}

/// The tone of a note.
pub open spec fn note_tone(line: Seq<char>) -> Tone {
    if starts(line, "· ✓"@) {
        Tone::Success
    } else if starts(line, "· ✗"@) {
        Tone::Error
    } else if starts(line, "· reasoning"@) || starts(line, "· ↳"@) || starts(line, "· diff · "@) {
        Tone::Activity
    } else {
        Tone::Muted
    }
}

/// The tone of a line of a diff.
pub open spec fn diff_tone(content: Seq<char>) -> Tone {
    if content.len() > 0 && content[0] == '+' {
        Tone::DiffAdded
    } else if content.len() > 0 && content[0] == '-' {
        Tone::DiffRemoved
    } else {
        Tone::DiffContext
    }
}

/// Rows of `width` cells each, but for the last.
pub open spec fn chunks(cells: Seq<Cell>, width: int, role: Role) -> Seq<RowView>
    decreases cells.len(),
{
    if cells.len() == 0 || width < 1 {
        Seq::empty()
    } else if cells.len() <= width {
        seq![RowView { role, cells }]
    } else {
        seq![RowView { role, cells: cells.take(width) }] + chunks(cells.skip(width), width, role)
    }
}

// ---------------------------------------------------------------------------
// Transcripts
// ---------------------------------------------------------------------------

/// Who speaks, whether within a fence, and whether within a diff.
#[derive(Clone, Copy, Debug, PartialEq, Eq, Structural)]
pub struct Speech {
    pub role: Role,
    pub fence: bool,
    pub in_diff: bool,
}

/// The text after the mark of an answer.
pub open spec fn answer_of(source: Seq<char>) -> Option<Seq<char>> {
    match strip_prefix(source, "hibi › "@) {
        Some(content) => Some(content),
        None => strip_prefix(source, "hibiscus › "@),
    }
}

/// Who speaks on a line, and what is left of it. A message ends any fence.
pub open spec fn spoken(s: Speech, source: Seq<char>) -> (Speech, Seq<char>) {
    if let Some(content) = strip_prefix(source, "you › "@) {
        (Speech { role: Role::User, fence: false, in_diff: false }, content)
    } else if let Some(content) = answer_of(source) {
        (Speech { role: Role::Assistant, fence: false, in_diff: false }, content)
    } else if starts(trim_start(source), "·"@) {
        (
            Speech {
                role: Role::Note,
                in_diff: starts(trim_start(source), "· diff · "@),
                ..s
            },
            source,
        )
    } else if s.in_diff && starts(source, "    "@) {
        (Speech { role: Role::Diff, ..s }, source.skip(4))
    } else {
        (s, source)
    }
}

/// A line begins an answer.
pub open spec fn begins_answer(source: Seq<char>) -> bool {
    strip_prefix(source, "you › "@) is None && answer_of(source) is Some
}

/// A line of an answer that opens or closes a fence.
pub open spec fn fence_line(s: Speech, content: Seq<char>) -> bool {
    s.role == Role::Assistant && starts(trim_start(content), "```"@)
}

/// A line of an answer that is not shown.
pub open spec fn hidden_line(s: Speech, content: Seq<char>) -> bool {
    s.role == Role::Assistant && !s.fence && !fence_line(s, content) && barred(trim_start(content))
        && table_separator_of(trim_start(content))
}

/// The cells of a line.
pub open spec fn line_cells(s: Speech, content: Seq<char>, next: Option<Seq<char>>) -> Seq<Cell> {
    let line = trim_start(content);
    if s.role == Role::Diff {
        toned(content, diff_tone(content))
    } else if fence_line(s, content) {
        if !s.fence && line.len() > 3 {
            toned("  "@ + trim(line.skip(3)), Tone::Muted)
        } else {
            Seq::empty()
        }
    } else if s.fence && s.role == Role::Assistant {
        toned("  "@, Tone::Muted) + toned(content, Tone::Code)
    } else if s.role == Role::Assistant {
        prose(content, next)
    } else if s.role == Role::Note {
        toned(content, note_tone(line))
    } else {
        toned(content, Tone::Plain)
    }
}

/// The rows of a line, and who speaks after it.
pub open spec fn line_rows(s: Speech, source: Seq<char>, next: Option<Seq<char>>, width: int) -> (
    Speech,
    Seq<RowView>,
) {
    let (s, content) = spoken(s, source);
    let content = trim_end_of(content, '\r');
    let label = if begins_answer(source) {
        wrapped(toned("hibi"@, Tone::Activity), width, Role::Assistant)
    } else {
        Seq::empty()
    };
    let cells = line_cells(s, content, next);
    let after = Speech {
        fence: if s.role != Role::Diff && fence_line(s, content) {
            !s.fence
        } else {
            s.fence
        },
        ..s
    };
    if hidden_line(s, content) {
        (s, label)
    } else if s.role == Role::Diff && cells.len() > 0 {
        (after, label + chunks(cells, width, s.role))
    } else {
        (after, label + wrapped(cells, width, s.role))
    }
}

/// The rows of the lines from `i` on.
pub open spec fn rows_from(ls: Seq<Seq<char>>, i: int, s: Speech, width: int) -> Seq<RowView>
    decreases ls.len() - i,
{
    if i < 0 || i >= ls.len() {
        Seq::empty()
    } else {
        let next = if i + 1 < ls.len() {
            Some(ls[i + 1])
        } else {
            None
        };
        let (after, shown) = line_rows(s, ls[i], next, width);
        shown + rows_from(ls, i + 1, after, width)
    }
}

/// The screen rows of a transcript.
pub open spec fn formatted(text: Seq<char>, width: int) -> Seq<RowView> {
    rows_from(
        lines(text),
        0,
        Speech { role: Role::Assistant, fence: false, in_diff: false },
        if width < 1 {
            1
        } else {
            width
        },
    )
}

fn bars_trimmed(s: &[char]) -> (r: &[char])
    ensures
        r@ == trim_bars(s@),
{
    trimmed_end_of(trimmed_start_of(s, '|'), '|')
}

fn is_ruled(column: &[char]) -> (r: bool)
    ensures
        r == ruled(column@),
{
    let body = trimmed(column);
    let mut dashes: usize = 0;
    let mut i: usize = 0;
    assert(body@.take(0) =~= Seq::empty());
    while i < body.len()
        invariant
            i <= body@.len(),
            body@ == trim(column@),
            dashes <= i,
            dashes == tally(body@.take(i as int), '-'),
            forall|j: int|
                0 <= j < i ==> (#[trigger] body@[j] == '-' || body@[j] == ':' || body@[j] == ' '),
        decreases body@.len() - i,
    {
        let c = body[i];
        assert(body@.take(i + 1).drop_last() =~= body@.take(i as int));
        if !(c == '-' || c == ':' || c == ' ') {
            return false;
        }
        if c == '-' {
            dashes = dashes + 1;
        }
        i = i + 1;
    }
    assert(body@.take(i as int) =~= body@);
    dashes >= 3
}

fn is_barred(line: &[char]) -> (r: bool)
    ensures
        r == barred(line@),
{
    let bar = chars_of("|");
    starts_text(line, "|") && ends_with(line, bar.as_slice())
}

pub fn table_separator(line: &[char]) -> (r: bool)
    ensures
        r == table_separator_of(line@),
{
    let body = trimmed(line);
    if !is_barred(body) {
        return false;
    }
    let columns = split_fields(bars_trimmed(body), '|');
    let mut i: usize = 0;
    let ghost all = fields(trim_bars(trim(line@)), '|');
    while i < columns.len()
        invariant
            i <= columns@.len(),
            rows(columns@) == all,
            all == fields(trim_bars(trim(line@)), '|'),
            barred(trim(line@)),
            forall|j: int| 0 <= j < i ==> ruled(#[trigger] all[j]),
        decreases columns@.len() - i,
    {
        assert(all[i as int] == columns@[i as int]@);
        if !is_ruled(columns[i].as_slice()) {
            return false;
        }
        i = i + 1;
    }
    true
}

pub fn ordered_item<'a>(text: &'a [char]) -> (r: Option<(&'a [char], &'a [char])>)
    ensures
        match r {
            Some((number, rest)) => ordered_item_of(text@) == Some((number@, rest@)),
            None => ordered_item_of(text@) is None,
        },
{
    let split: usize = match find_char(text, '.') {
        Some(split) => split,
        None => {
            return None;
        },
    };
    let number = slice_subrange(text, 0, split);
    let n: usize = text.len();
    let rest = slice_subrange(text, split, n);
    assert(number@ =~= text@.take(split as int));
    assert(rest@ =~= text@.skip(split as int));
    if number.len() == 0 {
        return None;
    }
    let mut i: usize = 0;
    while i < number.len()
        invariant
            i <= number@.len(),
            number@ == text@.take(split as int),
            index_of(text@, '.') == Some(split as int),
            forall|j: int| 0 <= j < i ==> is_digit(#[trigger] number@[j]),
        decreases number@.len() - i,
    {
        if !digit(number[i]) {
            assert(!is_digit(number@[i as int]));
            return None;
        }
        i = i + 1;
    }
    match after_prefix(rest, ". ") {
        Some(rest) => Some((number, rest)),
        None => None,
    }
}

fn format_table(line: &[char], tone: Tone) -> (cells: Vec<Cell>)
    ensures
        cells@ == table_cells(fields(trim_bars(line@), '|'), tone),
{
    let columns = split_fields(bars_trimmed(line), '|');
    let ghost all = rows(columns@);
    let mut cells: Vec<Cell> = Vec::new();
    let mut i: usize = 0;
    assert(all.take(0) =~= Seq::empty());
    assert(cells@ =~= Seq::empty());
    while i < columns.len()
        invariant
            i <= columns@.len(),
            all == rows(columns@),
            cells@ == table_cells(all.take(i as int), tone),
        decreases columns@.len() - i,
    {
        proof {
            assert(all.take(i + 1).drop_last() =~= all.take(i as int));
            assert(all.take(i + 1).last() == columns@[i as int]@);
        }
        if i > 0 {
            push_text(&mut cells, "  │  ", Tone::Muted);
        }
        let column = inline(trimmed(columns[i].as_slice()), tone);
        push_cells(&mut cells, &column);
        i = i + 1;
    }
    assert(all.take(i as int) =~= all);
    cells
}

fn is_line(line: &[char], literal: &str) -> (r: bool)
    ensures
        r == (line@ == literal@),
{
    let chars = chars_of(literal);
    same_chars(line, chars.as_slice())
}

fn heading<'a>(line: &'a [char]) -> (r: Option<&'a [char]>)
    ensures
        match r {
            Some(text) => heading_of(line@) == Some(text@),
            None => heading_of(line@) is None,
        },
{
    match after_prefix(line, "# ") {
        Some(text) => Some(text),
        None => match after_prefix(line, "## ") {
            Some(text) => Some(text),
            None => after_prefix(line, "### "),
        },
    }
}

fn item<'a>(line: &'a [char]) -> (r: Option<&'a [char]>)
    ensures
        match r {
            Some(text) => item_of(line@) == Some(text@),
            None => item_of(line@) is None,
        },
{
    match after_prefix(line, "- ") {
        Some(text) => Some(text),
        None => after_prefix(line, "* "),
    }
}

fn indent(content: &[char]) -> (n: usize)
    ensures
        n == item_indent(content@),
{
    let whole: usize = text_of(content).as_str().as_bytes().len();
    let line: usize = text_of(trimmed_start(content)).as_str().as_bytes().len();
    if whole < line {
        0
    } else if whole - line > 8 {
        8
    } else {
        whole - line
    }
}

fn format_prose(content: &[char], next: Option<&[char]>) -> (cells: Vec<Cell>)
    ensures
        cells@ == prose(
            content@,
            match next {
                Some(line) => Some(line@),
                None => None,
            },
        ),
{
    let line = trimmed_start(content);
    if is_barred(line) {
        let head = match next {
            Some(next) => table_separator(trimmed(next)),
            None => false,
        };
        return format_table(
            line,
            if head {
                Tone::Strong
            } else {
                Tone::Plain
            },
        );
    }
    if let Some(text) = heading(line) {
        return inline(text, Tone::Heading);
    }
    let mut cells: Vec<Cell> = Vec::new();
    assert(cells@ =~= Seq::empty());
    if let Some(text) = after_prefix(line, "> ") {
        push_text(&mut cells, "┃ ", Tone::Muted);
        push_cells(&mut cells, &inline(text, Tone::Plain));
        assert(cells@ =~= toned("┃ "@, Tone::Muted) + inlined(text@, Tone::Plain));
        return cells;
    }
    if let Some(text) = item(line) {
        let mut space = String::new();
        let n: usize = indent(content);
        crate::text::pad(&mut space, ' ', n);
        assert(space@ =~= crate::text::repeated(' ', item_indent(content@)));
        push_text(&mut cells, space.as_str(), Tone::Plain);
        push_text(&mut cells, "• ", Tone::Heading);
        push_cells(&mut cells, &inline(text, Tone::Plain));
        assert(cells@ =~= toned(space@, Tone::Plain) + toned("• "@, Tone::Heading) + inlined(
            text@,
            Tone::Plain,
        ));
        return cells;
    }
    if let Some((number, text)) = ordered_item(line) {
        let mut mark = slice_copy(number);
        crate::text::extend_text(&mut mark, ". ");
        push(&mut cells, mark.as_slice(), Tone::Heading);
        push_cells(&mut cells, &inline(text, Tone::Plain));
        assert(cells@ =~= toned(mark@, Tone::Heading) + inlined(text@, Tone::Plain));
        return cells;
    }
    if is_line(line, "---") || is_line(line, "***") || is_line(line, "___") {
        push_text(&mut cells, "────────", Tone::Muted);
        assert(cells@ =~= toned("────────"@, Tone::Muted));
        return cells;
    }
    inline(content, Tone::Plain)
}

fn tone_of_note(line: &[char]) -> (r: Tone)
    ensures
        r == note_tone(line@),
{
    if starts_text(line, "· ✓") {
        Tone::Success
    } else if starts_text(line, "· ✗") {
        Tone::Error
    } else if starts_text(line, "· reasoning") || starts_text(line, "· ↳") || starts_text(
        line,
        "· diff · ",
    ) {
        Tone::Activity
    } else {
        Tone::Muted
    }
}

fn tone_of_diff(content: &[char]) -> (r: Tone)
    ensures
        r == diff_tone(content@),
{
    if content.len() > 0 && content[0] == '+' {
        Tone::DiffAdded
    } else if content.len() > 0 && content[0] == '-' {
        Tone::DiffRemoved
    } else {
        Tone::DiffContext
    }
}

fn split_chunks(cells: &Vec<Cell>, width: usize, role: Role) -> (out: Vec<Row>)
    requires
        width >= 1,
    ensures
        row_views(out@) == chunks(cells@, width as int, role),
{
    let mut out: Vec<Row> = Vec::new();
    let n: usize = cells.len();
    let mut pos: usize = 0;
    assert(cells@.skip(0) =~= cells@);
    assert(row_views(out@) =~= Seq::empty());
    while pos < n
        invariant
            width >= 1,
            pos <= n,
            n == cells@.len(),
            chunks(cells@, width as int, role) =~= row_views(out@) + chunks(
                cells@.skip(pos as int),
                width as int,
                role,
            ),
        decreases n - pos,
    {
        let take: usize = if n - pos <= width {
            n - pos
        } else {
            width
        };
        let ghost left = cells@.skip(pos as int);
        let mut row: Vec<Cell> = Vec::new();
        let mut i: usize = 0;
        while i < take
            invariant
                i <= take,
                pos + take <= n,
                n == cells@.len(),
                left == cells@.skip(pos as int),
                row@ == left.take(i as int),
            decreases take - i,
        {
            row.push(cells[pos + i]);
            i = i + 1;
            assert(row@ =~= left.take(i as int));
        }
        let ghost before = out@;
        out.push(Row { role, cells: row });
        pos = pos + take;
        proof {
            assert(row_views(out@) =~= row_views(before).push(RowView { role, cells: row@ }));
            assert(cells@.skip(pos as int) =~= left.skip(take as int));
            if take == left.len() {
                assert(left.take(take as int) =~= left);
                assert(chunks(left.skip(take as int), width as int, role) =~= Seq::empty());
            }
        }
    }
    assert(cells@.skip(pos as int) =~= Seq::empty());
    assert(row_views(out@) =~= chunks(cells@, width as int, role));
    out
}

fn answer_text<'a>(source: &'a [char]) -> (r: Option<&'a [char]>)
    ensures
        match r {
            Some(text) => answer_of(source@) == Some(text@),
            None => answer_of(source@) is None,
        },
{
    match after_prefix(source, "hibi › ") {
        Some(text) => Some(text),
        None => after_prefix(source, "hibiscus › "),
    }
}

fn speak<'a>(s: Speech, source: &'a [char]) -> (r: (Speech, &'a [char], bool))
    ensures
        (r.0, r.1@) == spoken(s, source@),
        r.2 == begins_answer(source@),
{
    if let Some(content) = after_prefix(source, "you › ") {
        return (Speech { role: Role::User, fence: false, in_diff: false }, content, false);
    }
    if let Some(content) = answer_text(source) {
        return (Speech { role: Role::Assistant, fence: false, in_diff: false }, content, true);
    }
    let line = trimmed_start(source);
    if starts_text(line, "·") {
        return (
            Speech { role: Role::Note, in_diff: starts_text(line, "· diff · "), ..s },
            source,
            false,
        );
    }
    if s.in_diff && starts_text(source, "    ") {
        proof {
            reveal_strlit("    ");
        }
        let n: usize = source.len();
        let content = slice_subrange(source, 4, n);
        assert(content@ =~= source@.skip(4));
        return (Speech { role: Role::Diff, ..s }, content, false);
    }
    (s, source, false)
}

fn format_line(s: Speech, content: &[char], next: Option<&[char]>) -> (cells: Vec<Cell>)
    ensures
        cells@ == line_cells(
            s,
            content@,
            match next {
                Some(line) => Some(line@),
                None => None,
            },
        ),
{
    let line = trimmed_start(content);
    let mut cells: Vec<Cell> = Vec::new();
    assert(cells@ =~= Seq::empty());
    if s.role == Role::Diff {
        push(&mut cells, content, tone_of_diff(content));
        assert(cells@ =~= toned(content@, diff_tone(content@)));
        return cells;
    }
    if s.role == Role::Assistant && starts_text(line, "```") {
        proof {
            reveal_strlit("```");
        }
        if !s.fence && line.len() > 3 {
            let n: usize = line.len();
            let name = slice_subrange(line, 3, n);
            assert(name@ =~= line@.skip(3));
            let mut shown = chars_of("  ");
            extend(&mut shown, trimmed(name));
            push(&mut cells, shown.as_slice(), Tone::Muted);
            assert(cells@ =~= toned(shown@, Tone::Muted));
        }
        return cells;
    }
    if s.role == Role::Assistant {
        if s.fence {
            push_text(&mut cells, "  ", Tone::Muted);
            push(&mut cells, content, Tone::Code);
            assert(cells@ =~= toned("  "@, Tone::Muted) + toned(content@, Tone::Code));
            return cells;
        }
        return format_prose(content, next);
    }
    let tone = if s.role == Role::Note {
        tone_of_note(line)
    } else {
        Tone::Plain
    };
    push(&mut cells, content, tone);
    assert(cells@ =~= toned(content@, tone));
    cells
}

fn format_row(s: Speech, source: &[char], next: Option<&[char]>, width: usize) -> (r: (
    Speech,
    Vec<Row>,
))
    requires
        width >= 1,
    ensures
        (r.0, row_views(r.1@)) == line_rows(
            s,
            source@,
            match next {
                Some(line) => Some(line@),
                None => None,
            },
            width as int,
        ),
{
    let (s, content, answer) = speak(s, source);
    let content = trimmed_end_of(content, '\r');
    let line = trimmed_start(content);
    let mut rows: Vec<Row> = Vec::new();
    assert(row_views(rows@) =~= Seq::empty());
    if answer {
        let mut label: Vec<Cell> = Vec::new();
        push_text(&mut label, "hibi", Tone::Activity);
        assert(label@ =~= toned("hibi"@, Tone::Activity));
        rows = wrap_cells(&label, width, Role::Assistant);
    }
    let fence = s.role == Role::Assistant && starts_text(line, "```");
    if s.role == Role::Assistant && !s.fence && !fence && is_barred(line) && table_separator(
        line,
    ) {
        return (s, rows);
    }
    let cells = format_line(s, content, next);
    if s.role == Role::Diff && cells.len() > 0 {
        push_rows(&mut rows, split_chunks(&cells, width, s.role));
    } else {
        push_rows(&mut rows, wrap_cells(&cells, width, s.role));
    }
    let after = Speech {
        fence: if fence {
            !s.fence
        } else {
            s.fence
        },
        ..s
    };
    (after, rows)
}

/// Screen rows no wider than `width` columns. Fenced code is literal; prose
/// receives inline styles.
pub fn format(text: &str, width: usize) -> (out: Vec<Row>)
    ensures
        row_views(out@) == formatted(text@, width as int),
{
    let width: usize = if width < 1 {
        1
    } else {
        width
    };
    let chars = chars_of(text);
    let ls = split_lines(chars.as_slice());
    let mut out: Vec<Row> = Vec::new();
    let mut s = Speech { role: Role::Assistant, fence: false, in_diff: false };
    let mut i: usize = 0;
    let ghost all = lines(text@);
    let ghost start = s;
    assert(row_views(out@) =~= Seq::empty());
    while i < ls.len()
        invariant
            width >= 1,
            i <= ls@.len(),
            rows(ls@) == all,
            rows_from(all, 0, start, width as int) =~= row_views(out@) + rows_from(
                all,
                i as int,
                s,
                width as int,
            ),
        decreases ls@.len() - i,
    {
        assert(all[i as int] == ls@[i as int]@);
        let next = if i + 1 < ls.len() {
            assert(all[i + 1] == ls@[i + 1]@);
            Some(ls[i + 1].as_slice())
        } else {
            None
        };
        let (after, shown) = format_row(s, ls[i].as_slice(), next, width);
        let ghost before = row_views(out@);
        push_rows(&mut out, shown);
        s = after;
        i = i + 1;
        assert(row_views(out@) =~= before + row_views(shown@));
    }
    out
}


// ---------------------------------------------------------------------------
// Laws
// ---------------------------------------------------------------------------

/// Every row fits.
pub open spec fn fit(rows: Seq<RowView>, width: int) -> bool {
    forall|i: int| 0 <= i < rows.len() ==> (#[trigger] rows[i]).cells.len() <= width
}

proof fn lemma_without_blank_end(cells: Seq<Cell>)
    ensures
        without_blank_end(cells).len() <= cells.len(),
    decreases cells.len(),
{
    if cells.len() > 0 && blank(cells.last()) {
        lemma_without_blank_end(cells.drop_last());
    }
}

proof fn lemma_wrap_fits(cells: Seq<Cell>, width: int, role: Role, first: bool)
    requires
        width >= 1,
    ensures
        fit(wrap_from(cells, width, role, first), width),
    decreases cells.len(),
{
    if cells.len() > 0 {
        let capacity = capacity_of(first, width);
        lemma_wrap_progress(cells, capacity);
        let take = row_take(cells, capacity);
        let row = indent_of(first, width) + cells.take(take);
        reveal_strlit("  ");
        assert(indent_of(first, width).len() + capacity <= width);
        lemma_without_blank_end(row);
        let rest = cells.skip(take);
        if rest.len() > 0 {
            lemma_wrap_fits(without_blank_start(rest), width, role, false);
        }
    }
}

proof fn lemma_wrapped_fits(cells: Seq<Cell>, width: int, role: Role)
    requires
        width >= 1,
    ensures
        fit(wrapped(cells, width, role), width),
{
    lemma_wrap_fits(cells, width, role, true);
}

proof fn lemma_chunks_fit(cells: Seq<Cell>, width: int, role: Role)
    requires
        width >= 1,
    ensures
        fit(chunks(cells, width, role), width),
    decreases cells.len(),
{
    if cells.len() > width {
        lemma_chunks_fit(cells.skip(width), width, role);
    }
}

proof fn lemma_rows_fit(ls: Seq<Seq<char>>, i: int, s: Speech, width: int)
    requires
        width >= 1,
    ensures
        fit(rows_from(ls, i, s, width), width),
    decreases ls.len() - i,
{
    if 0 <= i < ls.len() {
        let next = if i + 1 < ls.len() {
            Some(ls[i + 1])
        } else {
            None
        };
        let (after, shown) = line_rows(s, ls[i], next, width);
        let (t, content) = spoken(s, ls[i]);
        let content = trim_end_of(content, '\r');
        let cells = line_cells(t, content, next);
        lemma_wrapped_fits(toned("hibi"@, Tone::Activity), width, Role::Assistant);
        lemma_wrapped_fits(cells, width, t.role);
        lemma_chunks_fit(cells, width, t.role);
        lemma_rows_fit(ls, i + 1, after, width);
    }
}

/// No row of a transcript is wider than the screen.
pub proof fn law_rows_fit_the_screen(text: Seq<char>, width: int)
    requires
        width >= 1,
    ensures
        forall|i: int|
            0 <= i < formatted(text, width).len() ==> (#[trigger] formatted(
                text,
                width,
            )[i]).cells.len() <= width,
{
    lemma_rows_fit(
        lines(text),
        0,
        Speech { role: Role::Assistant, fence: false, in_diff: false },
        width,
    );
}

/// The cells that are not blank.
pub open spec fn ink(cells: Seq<Cell>) -> Seq<Cell>
    decreases cells.len(),
{
    if cells.len() == 0 {
        Seq::empty()
    } else if blank(cells.last()) {
        ink(cells.drop_last())
    } else {
        ink(cells.drop_last()).push(cells.last())
    }
}

/// The cells of some rows that are not blank.
pub open spec fn ink_of(rows: Seq<RowView>) -> Seq<Cell>
    decreases rows.len(),
{
    if rows.len() == 0 {
        Seq::empty()
    } else {
        ink(rows[0].cells) + ink_of(rows.skip(1))
    }
}

pub proof fn lemma_ink_concat(a: Seq<Cell>, b: Seq<Cell>)
    ensures
        ink(a + b) == ink(a) + ink(b),
    decreases b.len(),
{
    if b.len() == 0 {
        assert(a + b =~= a);
        assert(ink(a) + ink(b) =~= ink(a));
    } else {
        assert((a + b).drop_last() =~= a + b.drop_last());
        lemma_ink_concat(a, b.drop_last());
        assert(ink(a + b) =~= ink(a) + ink(b));
    }
}

proof fn lemma_ink_start(cells: Seq<Cell>)
    ensures
        ink(without_blank_start(cells)) == ink(cells),
    decreases cells.len(),
{
    if cells.len() > 0 && blank(cells[0]) {
        lemma_ink_start(cells.skip(1));
        assert(cells =~= seq![cells[0]] + cells.skip(1));
        lemma_ink_concat(seq![cells[0]], cells.skip(1));
        assert(seq![cells[0]].drop_last() =~= Seq::empty());
        assert(ink(seq![cells[0]]) =~= Seq::empty()) by {
            reveal_with_fuel(ink, 2);
        }
        assert(Seq::<Cell>::empty() + ink(cells.skip(1)) =~= ink(cells.skip(1)));
    }
}

proof fn lemma_ink_end(cells: Seq<Cell>)
    ensures
        ink(without_blank_end(cells)) == ink(cells),
    decreases cells.len(),
{
    if cells.len() > 0 && blank(cells.last()) {
        lemma_ink_end(cells.drop_last());
    }
}

proof fn lemma_wrap_ink(cells: Seq<Cell>, width: int, role: Role, first: bool)
    requires
        width >= 1,
    ensures
        ink_of(wrap_from(cells, width, role, first)) == ink(cells),
    decreases cells.len(),
{
    if cells.len() > 0 {
        let capacity = capacity_of(first, width);
        lemma_wrap_progress(cells, capacity);
        let take = row_take(cells, capacity);
        let indent = indent_of(first, width);
        let row = indent + cells.take(take);
        let rest = cells.skip(take);
        reveal_strlit("  ");
        assert(ink(indent) =~= Seq::empty()) by {
            reveal_with_fuel(ink, 3);
        }
        lemma_ink_concat(indent, cells.take(take));
        assert(ink(row) =~= ink(cells.take(take)));
        assert(cells =~= cells.take(take) + rest);
        lemma_ink_concat(cells.take(take), rest);
        let all = wrap_from(cells, width, role, first);
        if rest.len() == 0 {
            assert(all.skip(1) =~= Seq::empty());
            assert(ink_of(all.skip(1)) =~= Seq::empty());
            assert(ink_of(all) =~= ink(row));
            assert(ink(rest) =~= Seq::empty());
            assert(ink(cells) =~= ink(cells.take(take)));
        } else {
            let next = without_blank_start(rest);
            lemma_ink_end(row);
            lemma_ink_start(rest);
            lemma_wrap_ink(next, width, role, false);
            assert(all.skip(1) =~= wrap_from(next, width, role, false));
        }
    } else {
        assert(ink(cells) =~= Seq::empty());
    }
}

/// Wrapping loses nothing but blanks: the cells of the rows that are not
/// blank are those of the line, in order and in their tones.
pub proof fn law_wrapping_keeps_the_text(cells: Seq<Cell>, width: int, role: Role)
    requires
        width >= 1,
    ensures
        ink_of(wrapped(cells, width, role)) == ink(cells),
{
    if cells.len() == 0 {
        let all = wrapped(cells, width, role);
        assert(all.skip(1) =~= Seq::empty());
        assert(ink_of(all.skip(1)) =~= Seq::empty());
        assert(ink_of(all) =~= ink(cells));
    } else {
        lemma_wrap_ink(cells, width, role, true);
    }
}

/// A new message ends a fence that was left open: it cannot leak into what
/// follows.
pub proof fn law_messages_end_fences(s: Speech, source: Seq<char>)
    requires
        strip_prefix(source, "you › "@) is Some || answer_of(source) is Some,
    ensures
        !spoken(s, source).0.fence,
        !spoken(s, source).0.in_diff,
{
}

/// What a user wrote, and a diff, is shown literally: no marker is
/// interpreted.
pub proof fn law_user_text_and_diffs_are_literal(s: Speech, content: Seq<char>, next: Option<Seq<char>>)
    requires
        s.role == Role::User || s.role == Role::Diff,
    ensures
        line_cells(s, content, next).len() == content.len(),
        forall|i: int|
            0 <= i < content.len() ==> (#[trigger] line_cells(s, content, next)[i]).ch == content[i],
{
}

}
