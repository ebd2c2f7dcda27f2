//! What holds of formatted text: markers style what stands between them, and
//! nothing that was written is lost.
use crate::markdown::{
    begins_answer, blank, cell, chunks, doubled, escapable, fence_line, has_link, hidden_line,
    indent_of, inline_from, inlined, ink, ink_of, item_indent, item_of, last_blank, law_wrapping_keeps_the_text,
    lemma_ink_concat, line_cells, line_rows, link_ends, ordered_item_of, prose, row_take, rows_from,
    spoken, table_cells, table_separator_of, toned, without_blank_end, without_blank_start, wrap_from,
    wrapped, Cell, Inline, Role, RowView, Speech, Tone,
};
use crate::lines::{fields, lemma_upto, upto};
use crate::paths::lemma_fields_of_both;
use crate::text::{
    contains, find, index_of, is_digit, is_white, law_the_first_place_is_found, lemma_find,
    occurs_at, repeated, starts, strip_prefix, trim, trim_end_of, trim_start, trim_start_of,
};
use vstd::prelude::*;
use vstd::utf8::encode_utf8;

verus! {

/// A character that may style what follows it.
pub open spec fn marker(c: char) -> bool {
    c == '\\' || c == '`' || c == '*' || c == '_' || c == '['
}

/// A text without markers.
pub open spec fn plain(text: Seq<char>) -> bool {
    forall|i: int| 0 <= i < text.len() ==> !marker(#[trigger] text[i])
}

/// No style is open, and nothing was written.
pub open spec fn begun() -> Inline {
    Inline { strong: false, emphasis: false, code: false, cells: Seq::empty() }
}

/// The same styles, with more written.
pub open spec fn wrote(s: Inline, more: Seq<Cell>) -> Inline {
    Inline { cells: s.cells + more, ..s }
}

/// Text without markers is written as it stands, in the style that is open,
/// and what follows it is formatted as before.
pub proof fn law_unmarked_text_is_written(a: Seq<char>, b: Seq<char>, default: Tone, s: Inline)
    requires
        plain(a),
    ensures
        inline_from(a + b, default, s) == inline_from(
            b,
            default,
            wrote(s, toned(a, s.tone(default))),
        ),
    decreases a.len(),
{
    let tone = s.tone(default);
    if a.len() == 0 {
        assert(a + b =~= b);
        assert(wrote(s, toned(a, tone)) =~= s);
    } else {
        let rest = a + b;
        assert(!marker(a[0]) && rest[0] == a[0]);
        let t = Inline { cells: s.cells.push(cell(a[0], tone)), ..s };
        assert(rest.skip(1) =~= a.skip(1) + b);
        assert(inline_from(rest, default, s) == inline_from(a.skip(1) + b, default, t));
        assert(plain(a.skip(1))) by {
            assert forall|i: int| 0 <= i < a.skip(1).len() implies !marker(
                #[trigger] a.skip(1)[i],
            ) by {
                assert(!marker(a[i + 1]));
            }
        }
        law_unmarked_text_is_written(a.skip(1), b, default, t);
        assert(wrote(t, toned(a.skip(1), tone)) =~= wrote(s, toned(a, tone)));
    }
}

/// A line without markers is shown as it stands.
pub proof fn law_unmarked_lines_are_kept(text: Seq<char>, default: Tone)
    requires
        plain(text),
    ensures
        inlined(text, default) == toned(text, default),
{
    law_unmarked_text_is_written(text, Seq::empty(), default, begun());
    assert(text + Seq::<char>::empty() =~= text);
    assert(wrote(begun(), toned(text, default)).cells =~= toned(text, default));
}

/// Of a link its text is shown, as a link; the line goes on behind it as if
/// the text had stood there.
pub proof fn law_links_are_replaced_by_their_text(
    label: Seq<char>,
    url: Seq<char>,
    b: Seq<char>,
    default: Tone,
    s: Inline,
)
    requires
        !s.code,
        !label.contains(']'),
        !url.contains(')'),
    ensures
        inline_from(seq!['['] + label + seq![']', '('] + url + seq![')'] + b, default, s)
            == inline_from(b, default, wrote(s, toned(label, Tone::Link))),
{
    let rest = seq!['['] + label + seq![']', '('] + url + seq![')'] + b;
    let end = 1 + label.len() as int;
    reveal_strlit("](");
    assert("]("@ =~= seq![']', '(']);
    assert(rest.subrange(end, end + 2) =~= "]("@);
    assert(occurs_at(rest, "]("@, end));
    lemma_find(rest, "]("@);
    let k = find(rest, "]("@)->0;
    assert(contains(rest, "]("@));
    assert(k == end) by {
        if k < end {
            assert(rest.subrange(k, k + 2)[0] == ']');
            if k > 0 {
                assert(rest[k] == label[k - 1]);
            }
        }
    }
    let tail = rest.skip(end + 2);
    assert(tail =~= url + seq![')'] + b);
    law_the_first_place_is_found(tail, ')');
    let close = index_of(tail, ')')->0;
    assert(tail[url.len() as int] == ')');
    assert(close == url.len()) by {
        if close < url.len() {
            assert(tail[close] == url[close]);
        }
    }
    assert(link_ends(rest) == Some((end, end + 2 + close)));
    assert(has_link(rest));
    assert(rest.subrange(1, end) =~= label);
    assert(rest.skip(end + 2 + close + 1) =~= b);
}

/// A link within a line: nothing before it and nothing behind it is lost.
pub proof fn law_links_keep_the_line(
    a: Seq<char>,
    label: Seq<char>,
    url: Seq<char>,
    b: Seq<char>,
    default: Tone,
)
    requires
        plain(a),
        plain(b),
        !label.contains(']'),
        !url.contains(')'),
    ensures
        inlined(
            a + (seq!['['] + label + seq![']', '('] + url + seq![')'] + b),
            default,
        ) == toned(a, default) + toned(label, Tone::Link) + toned(b, default),
{
    let link = seq!['['] + label + seq![']', '('] + url + seq![')'] + b;
    let s = begun();
    law_unmarked_text_is_written(a, link, default, s);
    let t = wrote(s, toned(a, default));
    law_links_are_replaced_by_their_text(label, url, b, default, t);
    let u = wrote(t, toned(label, Tone::Link));
    law_unmarked_text_is_written(b, Seq::empty(), default, u);
    assert(b + Seq::<char>::empty() =~= b);
    assert(wrote(u, toned(b, default)).cells =~= toned(a, default) + toned(label, Tone::Link)
        + toned(b, default));
}

/// No character of `code` styles anything within code.
pub open spec fn literal(code: Seq<char>) -> bool {
    forall|i: int| 0 <= i < code.len() ==> #[trigger] code[i] != '`' && code[i] != '\\'
}

proof fn lemma_code(code: Seq<char>, b: Seq<char>, default: Tone, s: Inline)
    requires
        literal(code),
        s.code,
    ensures
        inline_from(code + b, default, s) == inline_from(
            b,
            default,
            wrote(s, toned(code, Tone::Code)),
        ),
    decreases code.len(),
{
    if code.len() == 0 {
        assert(code + b =~= b);
        assert(wrote(s, toned(code, Tone::Code)) =~= s);
    } else {
        let rest = code + b;
        assert(rest[0] == code[0]);
        let t = Inline { cells: s.cells.push(cell(code[0], Tone::Code)), ..s };
        assert(rest.skip(1) =~= code.skip(1) + b);
        assert(literal(code.skip(1))) by {
            assert forall|i: int| 0 <= i < code.skip(1).len() implies #[trigger] code.skip(1)[i]
                != '`' && code.skip(1)[i] != '\\' by {
                assert(code[i + 1] != '`');
            }
        }
        lemma_code(code.skip(1), b, default, t);
        assert(wrote(t, toned(code.skip(1), Tone::Code)) =~= wrote(s, toned(code, Tone::Code)));
    }
}

/// Code between backticks is shown literally, as code and without them.
pub proof fn law_code_is_literal(code: Seq<char>, b: Seq<char>, default: Tone, s: Inline)
    requires
        !s.code,
        literal(code),
    ensures
        inline_from(seq!['`'] + code + seq!['`'] + b, default, s) == inline_from(
            b,
            default,
            wrote(s, toned(code, Tone::Code)),
        ),
{
    let rest = seq!['`'] + code + seq!['`'] + b;
    let tail = seq!['`'] + b;
    assert(rest.skip(1) =~= code + tail);
    assert((code + tail)[code.len() as int] == '`');
    assert(rest.skip(1).contains('`'));
    let t = Inline { code: true, ..s };
    assert(inline_from(rest, default, s) == inline_from(code + tail, default, t));
    lemma_code(code, tail, default, t);
    let u = wrote(t, toned(code, Tone::Code));
    assert(tail.skip(1) =~= b);
    assert(inline_from(tail, default, u) == inline_from(
        b,
        default,
        Inline { code: false, ..u },
    ));
    assert(Inline { code: false, ..u } =~= wrote(s, toned(code, Tone::Code)));
}

/// Text between doubled stars or underscores is strong, without them.
pub proof fn law_doubled_markers_are_strong(
    mark: char,
    text: Seq<char>,
    b: Seq<char>,
    default: Tone,
    s: Inline,
)
    requires
        !s.code,
        !s.strong,
        mark == '*' || mark == '_',
        plain(text),
    ensures
        inline_from(seq![mark, mark] + text + seq![mark, mark] + b, default, s) == inline_from(
            b,
            default,
            wrote(s, toned(text, Tone::Strong)),
        ),
{
    let pair = seq![mark, mark];
    let rest = pair + text + pair + b;
    let tail = pair + b;
    assert(rest.skip(2) =~= text + tail);
    assert(rest.take(2) =~= pair);
    assert(doubled(rest));
    let n = text.len() as int;
    assert((text + tail).subrange(n, n + 2) =~= pair);
    assert(occurs_at(text + tail, pair, n));
    assert(contains(rest.skip(2), rest.take(2)));
    let t = Inline { strong: true, ..s };
    assert(inline_from(rest, default, s) == inline_from(text + tail, default, t));
    law_unmarked_text_is_written(text, tail, default, t);
    let u = wrote(t, toned(text, Tone::Strong));
    assert(tail.skip(2) =~= b);
    assert(doubled(tail));
    assert(inline_from(tail, default, u) == inline_from(
        b,
        default,
        Inline { strong: false, ..u },
    ));
    assert(Inline { strong: false, ..u } =~= wrote(s, toned(text, Tone::Strong)));
}

/// Text between single stars is emphasised, without them.
pub proof fn law_stars_emphasise(text: Seq<char>, b: Seq<char>, default: Tone, s: Inline)
    requires
        !s.code,
        !s.strong,
        !s.emphasis,
        plain(text),
        text.len() > 0,
        b.len() > 0 ==> b[0] != '*',
    ensures
        inline_from(seq!['*'] + text + seq!['*'] + b, default, s) == inline_from(
            b,
            default,
            wrote(s, toned(text, Tone::Emphasis)),
        ),
{
    let rest = seq!['*'] + text + seq!['*'] + b;
    let tail = seq!['*'] + b;
    assert(rest.skip(1) =~= text + tail);
    assert(!marker(text[0]) && rest[1] == text[0]);
    assert((text + tail)[text.len() as int] == '*');
    assert(rest.skip(1).contains('*'));
    let t = Inline { emphasis: true, ..s };
    assert(inline_from(rest, default, s) == inline_from(text + tail, default, t));
    law_unmarked_text_is_written(text, tail, default, t);
    let u = wrote(t, toned(text, Tone::Emphasis));
    assert(tail.skip(1) =~= b);
    assert(!doubled(tail));
    assert(inline_from(tail, default, u) == inline_from(
        b,
        default,
        Inline { emphasis: false, ..u },
    ));
    assert(Inline { emphasis: false, ..u } =~= wrote(s, toned(text, Tone::Emphasis)));
}

/// A marker behind a backslash is shown as it stands, without the backslash.
pub proof fn law_escaped_markers_are_shown(c: char, b: Seq<char>, default: Tone, s: Inline)
    requires
        c == '\\' || c == '*' || c == '`' || c == '_' || c == '[' || c == ']',
    ensures
        inline_from(seq!['\\', c] + b, default, s) == inline_from(
            b,
            default,
            wrote(s, toned(seq![c], s.tone(default))),
        ),
{
    let rest = seq!['\\', c] + b;
    assert(rest.skip(2) =~= b);
    assert(escapable(rest[1]));
    assert(s.cells.push(cell(c, s.tone(default))) =~= wrote(
        s,
        toned(seq![c], s.tone(default)),
    ).cells);
}

/// A marker without a partner stays visible.
pub proof fn law_single_markers_stay_visible(
    a: Seq<char>,
    mark: char,
    b: Seq<char>,
    default: Tone,
)
    requires
        plain(a),
        plain(b),
        mark == '`' || mark == '*' || mark == '_',
    ensures
        inlined(a + (seq![mark] + b), default) == toned(a + seq![mark] + b, default),
{
    let rest = seq![mark] + b;
    law_unmarked_text_is_written(a, rest, default, begun());
    let t = wrote(begun(), toned(a, default));
    assert(rest.skip(1) =~= b);
    assert(!b.contains(mark)) by {
        if b.contains(mark) {
            let i = choose|i: int| 0 <= i < b.len() && b[i] == mark;
            assert(!marker(b[i]));
        }
    }
    assert(!doubled(rest)) by {
        if rest.len() >= 2 {
            assert(rest[1] == b[0]);
            assert(!marker(b[0]));
        }
    }
    let u = Inline { cells: t.cells.push(cell(mark, default)), ..t };
    assert(inline_from(rest, default, t) == inline_from(b, default, u));
    law_unmarked_text_is_written(b, Seq::empty(), default, u);
    assert(b + Seq::<char>::empty() =~= b);
    assert(wrote(u, toned(b, default)).cells =~= toned(a + seq![mark] + b, default));
}

// ---------------------------------------------------------------------------
// Lines
// ---------------------------------------------------------------------------

proof fn lemma_starts(a: Seq<char>, b: Seq<char>)
    ensures
        starts(a + b, a),
        strip_prefix(a + b, a) == Some(b),
{
    assert((a + b).subrange(0, a.len() as int) =~= a);
    assert((a + b).skip(a.len() as int) =~= b);
}

/// A text that begins with another character does not begin with `p`.
proof fn lemma_starts_not(text: Seq<char>, p: Seq<char>)
    requires
        p.len() > 0,
        text.len() == 0 || text[0] != p[0],
    ensures
        !starts(text, p),
        strip_prefix(text, p) is None,
{
    if starts(text, p) {
        assert(text.subrange(0, p.len() as int)[0] == p[0]);
    }
}

proof fn lemma_marks()
    ensures
        "|"@ =~= seq!['|'],
        "# "@ =~= seq!['#', ' '],
        "## "@ =~= seq!['#', '#', ' '],
        "### "@ =~= seq!['#', '#', '#', ' '],
        "> "@ =~= seq!['>', ' '],
        "- "@ =~= seq!['-', ' '],
        "* "@ =~= seq!['*', ' '],
        ". "@ =~= seq!['.', ' '],
        "---"@ =~= seq!['-', '-', '-'],
        "***"@ =~= seq!['*', '*', '*'],
        "___"@ =~= seq!['_', '_', '_'],
        "```"@ =~= seq!['`', '`', '`'],
{
    reveal_strlit("|");
    reveal_strlit("# ");
    reveal_strlit("## ");
    reveal_strlit("### ");
    reveal_strlit("> ");
    reveal_strlit("- ");
    reveal_strlit("* ");
    reveal_strlit(". ");
    reveal_strlit("---");
    reveal_strlit("***");
    reveal_strlit("___");
    reveal_strlit("```");
}

proof fn lemma_no_blank_start(text: Seq<char>)
    requires
        text.len() > 0,
        !is_white(text[0]),
    ensures
        trim_start(text) == text,
{
}

/// A heading is its text in the tone of headings, at each of three levels.
pub proof fn law_headings_are_toned(level: nat, text: Seq<char>, next: Option<Seq<char>>)
    requires
        1 <= level <= 3,
    ensures
        prose(repeated('#', level) + seq![' '] + text, next) == inlined(text, Tone::Heading),
{
    lemma_marks();
    let line = repeated('#', level) + seq![' '] + text;
    lemma_no_blank_start(line);
    lemma_starts_not(line, "|"@);
    let mark = repeated('#', level) + seq![' '];
    lemma_starts(mark, text);
    if level == 1 {
        assert(mark =~= "# "@);
    } else if level == 2 {
        assert(mark =~= "## "@);
        if starts(line, "# "@) {
            assert(line.subrange(0, 2)[1] == ' ');
        }
    } else {
        assert(mark =~= "### "@);
        if starts(line, "# "@) {
            assert(line.subrange(0, 2)[1] == ' ');
        }
        if starts(line, "## "@) {
            assert(line.subrange(0, 3)[2] == ' ');
        }
    }
}

/// A quotation is its text behind a bar.
pub proof fn law_quotations_are_marked(text: Seq<char>, next: Option<Seq<char>>)
    ensures
        prose(seq!['>', ' '] + text, next) == toned("┃ "@, Tone::Muted) + inlined(
            text,
            Tone::Plain,
        ),
{
    lemma_marks();
    let line = seq!['>', ' '] + text;
    lemma_no_blank_start(line);
    lemma_starts_not(line, "|"@);
    lemma_starts_not(line, "# "@);
    lemma_starts_not(line, "## "@);
    lemma_starts_not(line, "### "@);
    lemma_starts("> "@, text);
}

/// The item of a list is its text behind a bullet.
pub proof fn law_items_get_a_bullet(mark: char, text: Seq<char>, next: Option<Seq<char>>)
    requires
        mark == '-' || mark == '*',
    ensures
        prose(seq![mark, ' '] + text, next) == toned("• "@, Tone::Heading) + inlined(
            text,
            Tone::Plain,
        ),
{
    lemma_marks();
    let line = seq![mark, ' '] + text;
    lemma_no_blank_start(line);
    lemma_starts_not(line, "|"@);
    lemma_starts_not(line, "# "@);
    lemma_starts_not(line, "## "@);
    lemma_starts_not(line, "### "@);
    lemma_starts_not(line, "> "@);
    lemma_starts(seq![mark, ' '], text);
    if mark == '*' {
        lemma_starts_not(line, "- "@);
    }
    assert(item_of(line) == Some(text));
    assert(item_indent(line) == 0);
    assert(toned(repeated(' ', 0), Tone::Plain) + toned("• "@, Tone::Heading) =~= toned(
        "• "@,
        Tone::Heading,
    ));
}

/// A numbered item keeps its number.
pub proof fn law_numbered_items_keep_their_number(
    number: Seq<char>,
    text: Seq<char>,
    next: Option<Seq<char>>,
)
    requires
        number.len() > 0,
        forall|i: int| 0 <= i < number.len() ==> is_digit(#[trigger] number[i]),
    ensures
        prose(number + seq!['.', ' '] + text, next) == toned(
            number + seq!['.', ' '],
            Tone::Heading,
        ) + inlined(text, Tone::Plain),
{
    lemma_marks();
    let line = number + seq!['.', ' '] + text;
    assert(line[0] == number[0]);
    assert(is_digit(number[0]));
    lemma_no_blank_start(line);
    lemma_starts_not(line, "|"@);
    lemma_starts_not(line, "# "@);
    lemma_starts_not(line, "## "@);
    lemma_starts_not(line, "### "@);
    lemma_starts_not(line, "> "@);
    lemma_starts_not(line, "- "@);
    lemma_starts_not(line, "* "@);
    law_the_first_place_is_found(line, '.');
    let n = number.len() as int;
    assert(line[n] == '.');
    let k = index_of(line, '.')->0;
    assert(k == n) by {
        if k < n {
            assert(line[k] == number[k]);
        }
    }
    assert(line.take(n) =~= number);
    assert(line.skip(n) =~= seq!['.', ' '] + text);
    lemma_starts(". "@, text);
    assert(number + ". "@ =~= number + seq!['.', ' ']);
}

/// A line that begins with none of the marks of a block.
pub open spec fn ordinary(line: Seq<char>) -> bool {
    line.len() > 0 && !is_white(line[0]) && !is_digit(line[0]) && line[0] != '|' && line[0] != '#'
        && line[0] != '>' && line[0] != '-' && line[0] != '*' && line[0] != '_' && line[0] != '`'
}

/// Any other line is prose.
pub proof fn law_other_lines_are_prose(line: Seq<char>, next: Option<Seq<char>>)
    requires
        ordinary(line),
    ensures
        prose(line, next) == inlined(line, Tone::Plain),
{
    lemma_marks();
    lemma_no_blank_start(line);
    lemma_starts_not(line, "|"@);
    lemma_starts_not(line, "# "@);
    lemma_starts_not(line, "## "@);
    lemma_starts_not(line, "### "@);
    lemma_starts_not(line, "> "@);
    lemma_starts_not(line, "- "@);
    lemma_starts_not(line, "* "@);
    law_the_first_place_is_found(line, '.');
    if index_of(line, '.') is Some {
        let number = line.take(index_of(line, '.')->0);
        if number.len() > 0 {
            assert(number[0] == line[0]);
        }
    }
    assert(ordered_item_of(line) is None);
}

/// Every column of a table is shown, one behind the other.
pub proof fn law_columns_are_shown(columns: Seq<Seq<char>>, column: Seq<char>, tone: Tone)
    ensures
        table_cells(columns.push(column), tone) == (if columns.len() > 0 {
            table_cells(columns, tone) + toned("  │  "@, Tone::Muted)
        } else {
            Seq::empty()
        }) + inlined(trim(column), tone),
{
    let all = columns.push(column);
    assert(all.drop_last() =~= columns);
    assert(all.last() == column);
    if columns.len() == 0 {
        assert(table_cells(columns, tone) =~= Seq::empty());
    }
    assert(table_cells(columns.push(column), tone) =~= (if columns.len() > 0 {
        table_cells(columns, tone) + toned("  │  "@, Tone::Muted)
    } else {
        Seq::empty()
    }) + inlined(trim(column), tone));
}

/// Within a fence every line is shown literally, as code; only a line that
/// begins with a fence ends it.
pub proof fn law_fenced_lines_are_literal(s: Speech, content: Seq<char>, next: Option<Seq<char>>)
    requires
        s.role == Role::Assistant,
        s.fence,
        trim_start(content).len() == 0 || trim_start(content)[0] != '`',
    ensures
        line_cells(s, content, next) == toned("  "@, Tone::Muted) + toned(content, Tone::Code),
        !hidden_line(s, content),
        !fence_line(s, content),
{
    lemma_marks();
    lemma_starts_not(trim_start(content), "```"@);
}

// ---------------------------------------------------------------------------
// Rows
// ---------------------------------------------------------------------------

proof fn lemma_ink_rows(a: Seq<RowView>, b: Seq<RowView>)
    ensures
        ink_of(a + b) == ink_of(a) + ink_of(b),
    decreases a.len(),
{
    if a.len() == 0 {
        assert(a + b =~= b);
        assert(ink_of(a) + ink_of(b) =~= ink_of(b));
    } else {
        assert((a + b).skip(1) =~= a.skip(1) + b);
        lemma_ink_rows(a.skip(1), b);
        assert(ink_of(a + b) =~= ink_of(a) + ink_of(b));
    }
}

proof fn lemma_ink_chunks(cells: Seq<Cell>, width: int, role: Role)
    requires
        width >= 1,
    ensures
        ink_of(chunks(cells, width, role)) == ink(cells),
    decreases cells.len(),
{
    let all = chunks(cells, width, role);
    if cells.len() == 0 {
        assert(ink_of(all) =~= ink(cells));
    } else if cells.len() <= width {
        assert(all.skip(1) =~= Seq::empty());
        assert(ink_of(all.skip(1)) =~= Seq::empty());
        assert(ink_of(all) =~= ink(cells));
    } else {
        lemma_ink_chunks(cells.skip(width), width, role);
        assert(all.skip(1) =~= chunks(cells.skip(width), width, role));
        lemma_ink_concat(cells.take(width), cells.skip(width));
        assert(cells =~= cells.take(width) + cells.skip(width));
    }
}

/// What is shown of a line is all of it: its cells that are not blank, in
/// order, behind the name of the assistant where an answer begins.
pub proof fn law_lines_are_shown_whole(
    s: Speech,
    source: Seq<char>,
    next: Option<Seq<char>>,
    width: int,
)
    requires
        width >= 1,
        !hidden_line(spoken(s, source).0, trim_end_of(spoken(s, source).1, '\r')),
    ensures
        ink_of(line_rows(s, source, next, width).1) == (if begins_answer(source) {
            ink(toned("hibi"@, Tone::Activity))
        } else {
            Seq::empty()
        }) + ink(
            line_cells(spoken(s, source).0, trim_end_of(spoken(s, source).1, '\r'), next),
        ),
{
    let (t, content) = spoken(s, source);
    let content = trim_end_of(content, '\r');
    let cells = line_cells(t, content, next);
    let name = toned("hibi"@, Tone::Activity);
    law_wrapping_keeps_the_text(name, width, Role::Assistant);
    law_wrapping_keeps_the_text(cells, width, t.role);
    lemma_ink_chunks(cells, width, t.role);
    let label = if begins_answer(source) {
        wrapped(name, width, Role::Assistant)
    } else {
        Seq::empty()
    };
    lemma_ink_rows(label, wrapped(cells, width, t.role));
    lemma_ink_rows(label, chunks(cells, width, t.role));
    assert(Seq::<RowView>::empty() + wrapped(cells, width, t.role) =~= wrapped(
        cells,
        width,
        t.role,
    ));
}

/// A line goes on with what was being said: it has no mark of its own.
pub open spec fn continues(s: Speech, line: Seq<char>) -> bool {
    spoken(s, line) == (s, line) && trim_end_of(line, '\r') == line && !begins_answer(line)
}

/// The cells of some lines that are not blank.
pub open spec fn ink_of_lines(ls: Seq<Seq<char>>, i: int) -> Seq<Cell>
    decreases ls.len() - i,
{
    if i < 0 || i >= ls.len() {
        Seq::empty()
    } else {
        ink(toned(ls[i], Tone::Plain)) + ink_of_lines(ls, i + 1)
    }
}

/// What a user wrote is shown whole, line after line, whatever it is; and so
/// is an answer of ordinary lines without markers.
pub proof fn law_messages_are_shown_whole(ls: Seq<Seq<char>>, i: int, s: Speech, width: int)
    requires
        width >= 1,
        0 <= i,
        forall|k: int| i <= k < ls.len() ==> continues(s, #[trigger] ls[k]),
        s.role == Role::User || (s.role == Role::Assistant && !s.fence && forall|k: int|
            i <= k < ls.len() ==> plain(#[trigger] ls[k]) && ordinary(ls[k])),
    ensures
        ink_of(rows_from(ls, i, s, width)) == ink_of_lines(ls, i),
    decreases ls.len() - i,
{
    if i < ls.len() {
        let line = ls[i];
        let next = if i + 1 < ls.len() {
            Some(ls[i + 1])
        } else {
            None
        };
        assert(continues(s, line));
        lemma_marks();
        if s.role == Role::Assistant {
            assert(plain(line) && ordinary(line));
            lemma_no_blank_start(line);
            lemma_starts_not(line, "```"@);
            lemma_starts_not(line, "|"@);
            law_other_lines_are_prose(line, next);
            law_unmarked_lines_are_kept(line, Tone::Plain);
        }
        assert(!hidden_line(s, line));
        assert(line_cells(s, line, next) == toned(line, Tone::Plain));
        law_lines_are_shown_whole(s, line, next, width);
        let (after, shown) = line_rows(s, line, next, width);
        assert(after == s);
        law_messages_are_shown_whole(ls, i + 1, s, width);
        lemma_ink_rows(shown, rows_from(ls, i + 1, s, width));
        assert(ink_of(rows_from(ls, i, s, width)) =~= ink_of_lines(ls, i));
    } else {
        assert(ink_of(rows_from(ls, i, s, width)) =~= Seq::empty());
    }
}

proof fn lemma_last_blank(cells: Seq<Cell>, n: int)
    requires
        0 <= n <= cells.len(),
    ensures
        match last_blank(cells, n) {
            Some(p) => 0 <= p < n && blank(cells[p]) && forall|k: int|
                p < k < n ==> !blank(#[trigger] cells[k]),
            None => forall|k: int| 0 <= k < n ==> !blank(#[trigger] cells[k]),
        },
    decreases n,
{
    if n > 0 && !blank(cells[n - 1]) {
        lemma_last_blank(cells, n - 1);
    }
}

/// A row takes what fits, up to the last blank, unless that would leave more
/// than two thirds of it empty; then a word is broken, and the row is full.
pub proof fn law_rows_break_at_blanks(cells: Seq<Cell>, capacity: int)
    requires
        capacity >= 1,
    ensures
        ({
            let take = row_take(cells, capacity);
            &&& cells.len() <= capacity ==> take == cells.len()
            &&& cells.len() > capacity ==> {
                &&& 0 <= take <= capacity
                &&& take < capacity ==> blank(cells[take]) && take >= capacity / 3
                &&& forall|k: int| take < k < capacity ==> !blank(#[trigger] cells[k])
                &&& take == capacity ==> forall|k: int|
                    capacity / 3 <= k < capacity ==> !blank(#[trigger] cells[k])
            }
        }),
{
    if cells.len() > capacity {
        lemma_last_blank(cells, capacity);
    }
}

// ---------------------------------------------------------------------------
// Who speaks
// ---------------------------------------------------------------------------

/// The mark at the beginning of a line says who speaks, and is not part of what
/// is said: the user, the assistant under either name, or a note.
pub proof fn law_marks_say_who_speaks(s: Speech, text: Seq<char>)
    ensures
        spoken(s, "you › "@ + text) == (
            Speech { role: Role::User, fence: false, in_diff: false },
            text,
        ),
        spoken(s, "hibi › "@ + text) == (
            Speech { role: Role::Assistant, fence: false, in_diff: false },
            text,
        ),
        spoken(s, "hibiscus › "@ + text) == (
            Speech { role: Role::Assistant, fence: false, in_diff: false },
            text,
        ),
        begins_answer("hibi › "@ + text),
        begins_answer("hibiscus › "@ + text),
        !begins_answer("you › "@ + text),
        spoken(s, seq!['·'] + text).0.role == Role::Note,
        spoken(s, seq!['·'] + text).1 == seq!['·'] + text,
        s.in_diff ==> spoken(s, "    "@ + text) == (Speech { role: Role::Diff, ..s }, text) || (
        trim_start("    "@ + text).len() > 0 && trim_start("    "@ + text)[0] == '·'),
{
    reveal_strlit("you › ");
    reveal_strlit("hibi › ");
    reveal_strlit("hibiscus › ");
    reveal_strlit("·");
    reveal_strlit("    ");
    assert("·"@ =~= seq!['·']);
    lemma_starts("you › "@, text);
    lemma_starts("hibi › "@, text);
    lemma_starts("hibiscus › "@, text);
    let short = "hibi › "@ + text;
    let long = "hibiscus › "@ + text;
    lemma_starts_not(short, "you › "@);
    lemma_starts_not(long, "you › "@);
    if starts(long, "hibi › "@) {
        assert(long.subrange(0, 7)[4] == long[4]);
        assert(long[4] == 's');
        assert("hibi › "@[4] == ' ');
    }
    let note = seq!['·'] + text;
    lemma_starts_not(note, "you › "@);
    lemma_starts_not(note, "hibi › "@);
    lemma_starts_not(note, "hibiscus › "@);
    lemma_no_blank_start(note);
    lemma_starts(seq!['·'], text);
    let line = "    "@ + text;
    lemma_starts_not(line, "you › "@);
    lemma_starts_not(line, "hibi › "@);
    lemma_starts_not(line, "hibiscus › "@);
    lemma_starts("    "@, text);
    assert(line.skip(4) =~= text);
    if starts(trim_start(line), "·"@) {
        assert(trim_start(line).subrange(0, 1)[0] == trim_start(line)[0]);
    }
}

/// What is not marked is said by who spoke before.
pub proof fn law_unmarked_lines_go_on(s: Speech, line: Seq<char>)
    requires
        line.len() > 0,
        !is_white(line[0]),
        line[0] != 'y' && line[0] != 'h' && line[0] != '·',
    ensures
        spoken(s, line) == (s, line),
        !begins_answer(line),
{
    reveal_strlit("you › ");
    reveal_strlit("hibi › ");
    reveal_strlit("hibiscus › ");
    reveal_strlit("·");
    reveal_strlit("    ");
    lemma_starts_not(line, "you › "@);
    lemma_starts_not(line, "hibi › "@);
    lemma_starts_not(line, "hibiscus › "@);
    lemma_no_blank_start(line);
    lemma_starts_not(line, "·"@);
    lemma_starts_not(line, "    "@);
}

/// A line of a diff is shown literally, in the tone of what happened to it.
pub proof fn law_diff_lines_are_toned(s: Speech, content: Seq<char>, next: Option<Seq<char>>)
    requires
        s.role == Role::Diff,
        content.len() > 0,
    ensures
        content[0] == '+' ==> line_cells(s, content, next) == toned(content, Tone::DiffAdded),
        content[0] == '-' ==> line_cells(s, content, next) == toned(content, Tone::DiffRemoved),
        content[0] != '+' && content[0] != '-' ==> line_cells(s, content, next) == toned(
            content,
            Tone::DiffContext,
        ),
{
}

/// A note is shown literally: what went well and what went wrong in their own
/// tones.
pub proof fn law_notes_are_toned(s: Speech, text: Seq<char>, next: Option<Seq<char>>)
    requires
        s.role == Role::Note,
    ensures
        line_cells(s, "· ✓"@ + text, next) == toned("· ✓"@ + text, Tone::Success),
        line_cells(s, "· ✗"@ + text, next) == toned("· ✗"@ + text, Tone::Error),
        line_cells(s, "· ↳"@ + text, next) == toned("· ↳"@ + text, Tone::Activity),
{
    reveal_strlit("· ✓");
    reveal_strlit("· ✗");
    reveal_strlit("· ↳");
    reveal_strlit("· reasoning");
    let good = "· ✓"@ + text;
    let bad = "· ✗"@ + text;
    let call = "· ↳"@ + text;
    lemma_no_blank_start(good);
    lemma_no_blank_start(bad);
    lemma_no_blank_start(call);
    lemma_starts("· ✓"@, text);
    lemma_starts("· ✗"@, text);
    lemma_starts("· ↳"@, text);
    if starts(bad, "· ✓"@) {
        assert(bad.subrange(0, 3)[2] == bad[2]);
    }
    if starts(call, "· ✓"@) {
        assert(call.subrange(0, 3)[2] == call[2]);
    }
    if starts(call, "· ✗"@) {
        assert(call.subrange(0, 3)[2] == call[2]);
    }
}

/// A fence is opened by one line and closed by another; both stay out of the
/// text, but for the name of the language.
pub proof fn law_fences_open_and_close(
    s: Speech,
    text: Seq<char>,
    next: Option<Seq<char>>,
    width: int,
)
    requires
        s.role == Role::Assistant,
        text.len() > 0,
    ensures
        ({
            let line = "```"@ + text;
            &&& fence_line(s, line)
            &&& !s.fence ==> line_cells(s, line, next) == toned("  "@ + trim(text), Tone::Muted)
            &&& s.fence ==> line_cells(s, line, next).len() == 0
            &&& line_rows(s, line, next, width).0.fence == !s.fence
            &&& line_rows(s, line, next, width).0.role == Role::Assistant
        }),
{
    lemma_marks();
    let line = "```"@ + text;
    lemma_starts("```"@, text);
    lemma_no_blank_start(line);
    law_unmarked_lines_go_on(s, line);
    assert(line.skip(3) =~= text);
    let content = trim_end_of(line, '\r');
    lemma_fence_stays(text);
}

proof fn lemma_fence_stays(text: Seq<char>)
    ensures
        starts(trim_start(trim_end_of("```"@ + text, '\r')), "```"@),
    decreases text.len(),
{
    lemma_marks();
    let line = "```"@ + text;
    lemma_starts("```"@, text);
    lemma_no_blank_start(line);
    if line.last() == '\r' {
        assert(text.len() > 0);
        assert(line.drop_last() =~= "```"@ + text.drop_last());
        lemma_fence_stays(text.drop_last());
    }
}

// ---------------------------------------------------------------------------
// Tables and nested items
// ---------------------------------------------------------------------------

/// A row of a table shows its columns between bars, strong where it is the head.
pub proof fn law_table_rows_show_their_columns(
    a: Seq<char>,
    b: Seq<char>,
    next: Option<Seq<char>>,
)
    requires
        a.len() > 0,
        b.len() > 0,
        !a.contains('|'),
        !b.contains('|'),
    ensures
        ({
            let line = seq!['|'] + a + seq!['|'] + b + seq!['|'];
            let tone = if next is Some && table_separator_of(trim(next->0)) {
                Tone::Strong
            } else {
                Tone::Plain
            };
            prose(line, next) == inlined(trim(a), tone) + toned("  │  "@, Tone::Muted) + inlined(
                trim(b),
                tone,
            )
        }),
{
    lemma_marks();
    let line = seq!['|'] + a + seq!['|'] + b + seq!['|'];
    let tone = if next is Some && table_separator_of(trim(next->0)) {
        Tone::Strong
    } else {
        Tone::Plain
    };
    lemma_no_blank_start(line);
    assert(line.subrange(0, 1) =~= "|"@);
    assert(line.subrange(line.len() - 1, line.len() as int) =~= "|"@);
    assert(a.contains(a[0]));
    assert(b.contains(b.last()));
    let inner = a + seq!['|'] + b;
    let tail = inner + seq!['|'];
    assert(line.drop_first() =~= tail);
    assert(tail[0] == a[0]);
    assert(trim_start_of(tail, '|') == tail);
    assert(trim_start_of(line, '|') == tail);
    assert(tail.drop_last() =~= inner);
    assert(inner.last() == b.last());
    assert(trim_end_of(inner, '|') == inner);
    assert(trim_end_of(tail, '|') == inner);
    lemma_fields_of_both(a, b, '|');
    lemma_one_field(a);
    lemma_one_field(b);
    assert(fields(inner, '|') =~= seq![a, b]);
    let none = Seq::<Seq<char>>::empty();
    law_columns_are_shown(none, a, tone);
    law_columns_are_shown(none.push(a), b, tone);
    assert(none.push(a).push(b) =~= seq![a, b]);
    assert(prose(line, next) =~= inlined(trim(a), tone) + toned("  │  "@, Tone::Muted) + inlined(
        trim(b),
        tone,
    ));
}

proof fn lemma_one_field(a: Seq<char>)
    requires
        !a.contains('|'),
    ensures
        fields(a, '|') == seq![a],
{
    lemma_upto(a, '|');
    if upto(a, '|') < a.len() {
        assert(a.contains(a[upto(a, '|') as int]));
    }
}

proof fn lemma_blanks_before(n: nat, text: Seq<char>)
    requires
        text.len() > 0,
        !is_white(text[0]),
    ensures
        trim_start(repeated(' ', n) + text) == text,
        encode_utf8(repeated(' ', n) + text).len() == n + encode_utf8(text).len(),
    decreases n,
{
    let line = repeated(' ', n) + text;
    if n == 0 {
        assert(line =~= text);
    } else {
        lemma_blanks_before((n - 1) as nat, text);
        assert(line.drop_first() =~= repeated(' ', (n - 1) as nat) + text);
        assert(line[0] == ' ');
        vstd::utf8::encode_utf8_first_scalar(line);
        assert(encode_utf8(line).len() == 1 + encode_utf8(line.drop_first()).len());
    }
}

/// An item below another one is indented as it was written, up to eight
/// columns.
pub proof fn law_nested_items_are_indented(
    n: nat,
    mark: char,
    text: Seq<char>,
    next: Option<Seq<char>>,
)
    requires
        mark == '-' || mark == '*',
        n <= 8,
    ensures
        prose(repeated(' ', n) + (seq![mark, ' '] + text), next) == toned(
            repeated(' ', n),
            Tone::Plain,
        ) + toned("• "@, Tone::Heading) + inlined(text, Tone::Plain),
{
    lemma_marks();
    let line = seq![mark, ' '] + text;
    lemma_blanks_before(n, line);
    lemma_starts_not(line, "|"@);
    lemma_starts_not(line, "# "@);
    lemma_starts_not(line, "## "@);
    lemma_starts_not(line, "### "@);
    lemma_starts_not(line, "> "@);
    lemma_starts(seq![mark, ' '], text);
    if mark == '*' {
        lemma_starts_not(line, "- "@);
    }
    assert(item_of(line) == Some(text));
}

// ---------------------------------------------------------------------------
// Rows
// ---------------------------------------------------------------------------

proof fn lemma_end_keeps(cells: Seq<Cell>, k: int)
    requires
        0 <= k < cells.len(),
        !blank(cells[k]),
    ensures
        k < without_blank_end(cells).len() <= cells.len(),
        without_blank_end(cells) == cells.take(without_blank_end(cells).len() as int),
    decreases cells.len(),
{
    if blank(cells.last()) {
        lemma_end_keeps(cells.drop_last(), k);
        let n = without_blank_end(cells).len() as int;
        assert(cells.drop_last().take(n) =~= cells.take(n));
    } else {
        assert(cells.take(cells.len() as int) =~= cells);
    }
}

proof fn lemma_start_is_no_blank(cells: Seq<Cell>)
    ensures
        without_blank_start(cells).len() > 0 ==> !blank(without_blank_start(cells)[0]),
    decreases cells.len(),
{
    if cells.len() > 0 && blank(cells[0]) {
        lemma_start_is_no_blank(cells.skip(1));
    }
}

proof fn lemma_later_rows(cells: Seq<Cell>, width: int, role: Role)
    requires
        width > 4,
        cells.len() > 0 ==> !blank(cells[0]),
    ensures
        forall|i: int|
            0 <= i < wrap_from(cells, width, role, false).len() ==> {
                let row = #[trigger] wrap_from(cells, width, role, false)[i];
                &&& row.role == role
                &&& row.cells.len() > 2
                &&& row.cells[0] == cell(' ', Tone::Plain)
                &&& row.cells[1] == cell(' ', Tone::Plain)
                &&& !blank(row.cells[2])
            },
    decreases cells.len(),
{
    reveal_strlit("  ");
    if cells.len() > 0 {
        let take = row_take(cells, width - 2);
        law_rows_break_at_blanks(cells, width - 2);
        assert(take > 0);
        let row = indent_of(false, width) + cells.take(take);
        assert(row[0] == cell(' ', Tone::Plain) && row[1] == cell(' ', Tone::Plain));
        assert(row[2] == cells[0]);
        let rest = cells.skip(take);
        if rest.len() > 0 {
            let next = without_blank_start(rest);
            lemma_start_is_no_blank(rest);
            lemma_end_keeps(row, 2);
            if next.len() < cells.len() {
                lemma_later_rows(next, width, role);
            }
        }
    }
}

/// A long line goes on under its first row, two columns to the right and
/// without blanks before it; an empty line is one empty row.
pub proof fn law_later_rows_are_indented(cells: Seq<Cell>, width: int, role: Role, i: int)
    requires
        width > 4,
    ensures
        cells.len() == 0 ==> wrapped(cells, width, role) == seq![RowView { role, cells }],
        0 < cells.len() <= width ==> wrapped(cells, width, role) == seq![RowView { role, cells }],
        0 < i < wrapped(cells, width, role).len() ==> {
            let row = wrapped(cells, width, role)[i];
            &&& row.role == role
            &&& row.cells.len() > 2
            &&& row.cells[0] == cell(' ', Tone::Plain)
            &&& row.cells[1] == cell(' ', Tone::Plain)
            &&& !blank(row.cells[2])
        },
{
    if cells.len() > 0 {
        let take = row_take(cells, width);
        let rest = cells.skip(take);
        let row = indent_of(true, width) + cells.take(take);
        if cells.len() <= width {
            assert(row =~= cells);
        }
        if rest.len() > 0 {
            let next = without_blank_start(rest);
            lemma_start_is_no_blank(rest);
            if next.len() < cells.len() {
                lemma_later_rows(next, width, role);
                let later = wrap_from(next, width, role, false);
                let all = wrapped(cells, width, role);
                assert(all =~= seq![RowView { role, cells: without_blank_end(row) }] + later);
                if 0 < i < all.len() {
                    assert(all[i] == later[i - 1]);
                }
            }
        }
    }
}

/// The cells of some rows one after the other.
pub open spec fn put_together(rows: Seq<RowView>) -> Seq<Cell>
    decreases rows.len(),
{
    if rows.len() == 0 {
        Seq::empty()
    } else {
        rows[0].cells + put_together(rows.skip(1))
    }
}

/// The rows of a diff make up its line, blanks included, and all but the last
/// are full.
pub proof fn law_diff_rows_make_up_the_line(cells: Seq<Cell>, width: int, role: Role)
    requires
        width >= 1,
    ensures
        put_together(chunks(cells, width, role)) == cells,
        forall|i: int|
            0 <= i < chunks(cells, width, role).len() - 1 ==> (#[trigger] chunks(
                cells,
                width,
                role,
            )[i]).cells.len() == width,
        forall|i: int|
            0 <= i < chunks(cells, width, role).len() ==> 0 < (#[trigger] chunks(
                cells,
                width,
                role,
            )[i]).cells.len() <= width,
    decreases cells.len(),
{
    let rows = chunks(cells, width, role);
    if cells.len() == 0 {
        assert(put_together(rows) =~= cells);
    } else if cells.len() <= width {
        assert(rows.skip(1) =~= Seq::empty());
        assert(put_together(rows.skip(1)) =~= Seq::empty());
        assert(put_together(rows) =~= cells);
    } else {
        let rest = chunks(cells.skip(width), width, role);
        law_diff_rows_make_up_the_line(cells.skip(width), width, role);
        assert(rows.skip(1) =~= rest);
        assert(cells.take(width) + cells.skip(width) =~= cells);
        assert forall|i: int| 0 <= i < rows.len() implies 0 < (#[trigger] rows[i]).cells.len()
            <= width by {
            if i > 0 {
                assert(rows[i] == rest[i - 1]);
            }
        }
        assert forall|i: int| 0 <= i < rows.len() - 1 implies (#[trigger] rows[i]).cells.len()
            == width by {
            if i > 0 {
                assert(rows[i] == rest[i - 1]);
            }
        }
    }
}

}
