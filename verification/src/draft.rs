//! Visual rows of a draft: explicit newlines are kept, and at an exact wrap
//! boundary the insertion point stands on a new row. What is sent is never
//! reflowed.
use crate::lines::{lemma_rows_push, rows};
use crate::text::{chars_of, text_of};
use vstd::prelude::*;
use vstd::utf8::encode_utf8;

verus! {

/// At least one column.
pub open spec fn columns_of(width: nat) -> nat {
    if width < 1 {
        1
    } else {
        width
    }
}

/// The row and the column at the end of a text.
pub open spec fn place(text: Seq<char>, width: nat) -> (nat, nat)
    decreases text.len(),
{
    if text.len() == 0 {
        (0, 0)
    } else {
        let (row, col) = place(text.drop_last(), width);
        if text.last() == '\n' || col + 1 == width {
            (row + 1, 0)
        } else {
            (row, col + 1)
        }
    }
}

/// The rows of a text.
pub open spec fn draft_rows(text: Seq<char>, width: nat) -> Seq<Seq<char>>
    decreases text.len(),
{
    if text.len() == 0 {
        seq![Seq::empty()]
    } else {
        let before = draft_rows(text.drop_last(), width);
        if text.last() == '\n' {
            before.push(Seq::empty())
        } else {
            let row = before.last().push(text.last());
            let grown = before.drop_last().push(row);
            if row.len() == width {
                grown.push(Seq::empty())
            } else {
                grown
            }
        }
    }
}

/// The last place up to `n` that stands on a row, at a column or before it.
pub open spec fn index_upto(text: Seq<char>, width: nat, row: nat, column: nat, n: nat) -> Option<nat>
    decreases n,
{
    let (r, c) = place(text.take(n as int), width);
    if r == row && c <= column {
        Some(n)
    } else if n == 0 {
        None
    } else {
        index_upto(text, width, row, column, (n - 1) as nat)
    }
}

/// The place on a row that is nearest to a column from the left.
pub open spec fn index_on_row(text: Seq<char>, width: nat, row: nat, column: nat) -> Option<nat> {
    index_upto(text, width, row, column, text.len())
}

/// How many characters begin before the byte `cursor`.
pub open spec fn chars_before(text: Seq<char>, cursor: nat) -> nat
    decreases text.len(),
{
    if text.len() == 0 {
        0
    } else if encode_utf8(text.drop_last()).len() < cursor {
        text.len()
    } else {
        chars_before(text.drop_last(), cursor)
    }
}

pub proof fn lemma_place_bounds(text: Seq<char>, width: nat)
    requires
        width >= 1,
    ensures
        place(text, width).0 <= text.len(),
        place(text, width).1 <= text.len(),
        place(text, width).1 < width,
    decreases text.len(),
{
    if text.len() > 0 {
        lemma_place_bounds(text.drop_last(), width);
    }
}

/// The row and the column at the end of `text`.
pub fn end_place(text: &[char], width: usize) -> (r: (usize, usize))
    ensures
        (r.0 as nat, r.1 as nat) == place(text@, columns_of(width as nat)),
        r.0 <= text@.len(),
{
    let most: usize = if width < 1 {
        1
    } else {
        width
    };
    let ghost w = columns_of(width as nat);
    let n: usize = text.len();
    let mut row: usize = 0;
    let mut col: usize = 0;
    let mut i: usize = 0;
    assert(text@.take(0) =~= Seq::empty());
    while i < n
        invariant
            i <= n,
            n == text@.len(),
            most == w,
            w >= 1,
            (row as nat, col as nat) == place(text@.take(i as int), w),
            row <= i,
            col <= i,
        decreases n - i,
    {
        proof {
            assert(text@.take(i + 1).drop_last() =~= text@.take(i as int));
        }
        if text[i] == '\n' {
            row = row + 1;
            col = 0;
        } else {
            col = col + 1;
            if col == most {
                row = row + 1;
                col = 0;
            }
        }
        i = i + 1;
    }
    assert(text@.take(i as int) =~= text@);
    (row, col)
}

/// The place on a row that is nearest to a column from the left, counted in
/// characters.
pub fn place_on_row(text: &[char], width: usize, row: usize, column: usize) -> (r: Option<usize>)
    ensures
        match r {
            Some(i) => i <= text@.len() && index_on_row(
                text@,
                columns_of(width as nat),
                row as nat,
                column as nat,
            ) == Some(i as nat),
            None => index_on_row(text@, columns_of(width as nat), row as nat, column as nat) is None,
        },
{
    let most: usize = if width < 1 {
        1
    } else {
        width
    };
    let ghost w = columns_of(width as nat);
    let n: usize = text.len();
    let mut best: Option<usize> = if row == 0 {
        Some(0)
    } else {
        None
    };
    let mut current: usize = 0;
    let mut col: usize = 0;
    let mut i: usize = 0;
    assert(text@.take(0) =~= Seq::empty());
    while i < n
        invariant
            i <= n,
            n == text@.len(),
            most == w,
            w >= 1,
            (current as nat, col as nat) == place(text@.take(i as int), w),
            current <= i,
            col <= i,
            match best {
                Some(b) => b <= i && index_upto(text@, w, row as nat, column as nat, i as nat)
                    == Some(b as nat),
                None => index_upto(text@, w, row as nat, column as nat, i as nat) is None,
            },
        decreases n - i,
    {
        proof {
            assert(text@.take(i + 1).drop_last() =~= text@.take(i as int));
        }
        if text[i] == '\n' {
            current = current + 1;
            col = 0;
        } else {
            col = col + 1;
            if col == most {
                current = current + 1;
                col = 0;
            }
        }
        i = i + 1;
        if current == row && col <= column {
            best = Some(i);
        }
    }
    best
}

/// The rows of `text`.
pub fn wrapped_rows(text: &[char], width: usize) -> (out: Vec<Vec<char>>)
    ensures
        rows(out@) == draft_rows(text@, columns_of(width as nat)),
        out@.len() >= 1,
{
    let most: usize = if width < 1 {
        1
    } else {
        width
    };
    let ghost w = columns_of(width as nat);
    let n: usize = text.len();
    let mut out: Vec<Vec<char>> = Vec::new();
    let mut row: Vec<char> = Vec::new();
    let mut i: usize = 0;
    proof {
        assert(text@.take(0) =~= Seq::empty());
        assert(row@ =~= Seq::empty());
        assert(rows(out@).push(row@) =~= draft_rows(text@.take(0), w));
    }
    while i < n
        invariant
            i <= n,
            n == text@.len(),
            most == w,
            w >= 1,
            rows(out@).push(row@) == draft_rows(text@.take(i as int), w),
        decreases n - i,
    {
        let ghost before = rows(out@).push(row@);
        proof {
            assert(text@.take(i + 1).drop_last() =~= text@.take(i as int));
            assert(before.last() == row@);
            assert(before.drop_last() =~= rows(out@));
        }
        if text[i] == '\n' {
            let mut next: Vec<char> = Vec::new();
            std::mem::swap(&mut next, &mut row);
            proof {
                lemma_rows_push(out@, next);
                assert(row@ =~= Seq::empty());
            }
            out.push(next);
        } else {
            row.push(text[i]);
            if row.len() == most {
                let mut next: Vec<char> = Vec::new();
                std::mem::swap(&mut next, &mut row);
                proof {
                    lemma_rows_push(out@, next);
                    assert(row@ =~= Seq::empty());
                }
                out.push(next);
            }
        }
        i = i + 1;
    }
    assert(text@.take(i as int) =~= text@);
    proof {
        lemma_rows_push(out@, row);
    }
    out.push(row);
    out
}

/// The number of characters of `text` that begin before the byte `cursor`.
fn count_before(text: &[char], cursor: usize) -> (k: usize)
    ensures
        k == chars_before(text@, cursor as nat),
        k <= text@.len(),
{
    let mut n: usize = text.len();
    assert(text@.take(n as int) =~= text@);
    while n > 0
        invariant
            n <= text@.len(),
            chars_before(text@, cursor as nat) == chars_before(text@.take(n as int), cursor as nat),
        decreases n,
    {
        let head = vstd::slice::slice_subrange(text, 0, n - 1);
        assert(head@ =~= text@.take(n as int).drop_last());
        if text_of(head).as_str().as_bytes().len() < cursor {
            return n;
        }
        assert(text@.take(n as int).drop_last() =~= text@.take(n - 1));
        n = n - 1;
    }
    0
}

/// The row and the column of the insertion point at the byte `cursor`.
pub fn draft_cursor_position(text: &str, width: usize, cursor: usize) -> (r: (usize, usize))
    ensures
        (r.0 as nat, r.1 as nat) == place(
            text@.take(chars_before(text@, cursor as nat) as int),
            columns_of(width as nat),
        ),
{
    let chars = chars_of(text);
    let k: usize = count_before(chars.as_slice(), cursor);
    let head = vstd::slice::slice_subrange(chars.as_slice(), 0, k);
    assert(head@ =~= text@.take(k as int));
    end_place(head, width)
}

/// The byte at which the place on a row that is nearest to a column from the
/// left begins.
pub fn draft_index_on_row(text: &str, width: usize, row: usize, column: usize) -> (r: Option<usize>)
    ensures
        match r {
            Some(b) => index_on_row(
                text@,
                columns_of(width as nat),
                row as nat,
                column as nat,
            ) matches Some(i) && b == encode_utf8(text@.take(i as int)).len(),
            None => index_on_row(text@, columns_of(width as nat), row as nat, column as nat) is None,
        },
{
    let chars = chars_of(text);
    match place_on_row(chars.as_slice(), width, row, column) {
        Some(i) => {
            let head = vstd::slice::slice_subrange(chars.as_slice(), 0, i);
            assert(head@ =~= text@.take(i as int));
            Some(text_of(head).as_str().as_bytes().len())
        },
        None => None,
    }
}

/// The rows of a draft.
pub fn draft_lines(text: &str, width: usize) -> (out: Vec<String>)
    ensures
        crate::lines::texts(out@) == draft_rows(text@, columns_of(width as nat)),
        out@.len() >= 1,
{
    let chars = chars_of(text);
    let all = wrapped_rows(chars.as_slice(), width);
    let mut out: Vec<String> = Vec::new();
    let mut i: usize = 0;
    while i < all.len()
        invariant
            i <= all@.len(),
            out@.len() == i,
            forall|j: int| 0 <= j < i ==> (#[trigger] out@[j])@ == all@[j]@,
        decreases all@.len() - i,
    {
        out.push(text_of(all[i].as_slice()));
        i = i + 1;
    }
    assert(crate::lines::texts(out@) =~= rows(all@));
    out
}

// ---------------------------------------------------------------------------
// Laws
// ---------------------------------------------------------------------------

/// The rows of a draft end at its insertion point, and none is wider than it
/// may be.
pub proof fn law_rows_end_at_the_cursor(text: Seq<char>, width: nat)
    requires
        width >= 1,
    ensures
        draft_rows(text, width).len() == place(text, width).0 + 1,
        draft_rows(text, width).last().len() == place(text, width).1,
        forall|i: int|
            0 <= i < draft_rows(text, width).len() ==> (#[trigger] draft_rows(
                text,
                width,
            )[i]).len() <= width,
    decreases text.len(),
{
    lemma_place_bounds(text, width);
    if text.len() > 0 {
        law_rows_end_at_the_cursor(text.drop_last(), width);
        lemma_place_bounds(text.drop_last(), width);
        let before = draft_rows(text.drop_last(), width);
        let all = draft_rows(text, width);
        assert forall|i: int| 0 <= i < all.len() implies (#[trigger] all[i]).len() <= width by {
            if i < before.len() - 1 {
                assert(all[i] == before[i]);
            } else if i == before.len() - 1 && text.last() == '\n' {
                assert(all[i] == before[i]);
            }
        }
    }
}

/// The text of some rows, one after the other.
pub open spec fn flat(rows: Seq<Seq<char>>) -> Seq<char>
    decreases rows.len(),
{
    if rows.len() == 0 {
        Seq::empty()
    } else {
        flat(rows.drop_last()) + rows.last()
    }
}

/// A text without its line breaks.
pub open spec fn without_breaks(text: Seq<char>) -> Seq<char>
    decreases text.len(),
{
    if text.len() == 0 {
        Seq::empty()
    } else if text.last() == '\n' {
        without_breaks(text.drop_last())
    } else {
        without_breaks(text.drop_last()).push(text.last())
    }
}

proof fn lemma_flat_push(rows: Seq<Seq<char>>, row: Seq<char>)
    ensures
        flat(rows.push(row)) == flat(rows) + row,
{
    assert(rows.push(row).drop_last() =~= rows);
}

/// The rows show every character of the draft once and in order; only the
/// explicit breaks are not characters of a row.
pub proof fn law_rows_show_the_draft(text: Seq<char>, width: nat)
    requires
        width >= 1,
    ensures
        flat(draft_rows(text, width)) == without_breaks(text),
    decreases text.len(),
{
    if text.len() == 0 {
        assert(draft_rows(text, width).drop_last() =~= Seq::empty());
        assert(flat(draft_rows(text, width).drop_last()) =~= Seq::empty());
        assert(flat(draft_rows(text, width)) =~= Seq::empty());
    } else {
        law_rows_show_the_draft(text.drop_last(), width);
        law_rows_end_at_the_cursor(text.drop_last(), width);
        let before = draft_rows(text.drop_last(), width);
        if text.last() == '\n' {
            lemma_flat_push(before, Seq::empty());
            assert(flat(before) + Seq::<char>::empty() =~= flat(before));
        } else {
            let row = before.last().push(text.last());
            let grown = before.drop_last().push(row);
            lemma_flat_push(before.drop_last(), row);
            assert(flat(grown) =~= flat(before).push(text.last()));
            lemma_flat_push(grown, Seq::empty());
            assert(flat(grown) + Seq::<char>::empty() =~= flat(grown));
        }
    }
}

/// Going forward, the insertion point moves right on its row or to a later
/// row.
proof fn lemma_place_monotone(text: Seq<char>, width: nat, i: int, j: int)
    requires
        width >= 1,
        0 <= i < j <= text.len(),
    ensures
        ({
            let (r, c) = place(text.take(i), width);
            let (s, d) = place(text.take(j), width);
            r < s || (r == s && c < d)
        }),
    decreases j - i,
{
    assert(text.take(j).drop_last() =~= text.take(j - 1));
    if i < j - 1 {
        lemma_place_monotone(text, width, i, j - 1);
    }
}

proof fn lemma_index_upto(text: Seq<char>, width: nat, i: nat, n: nat)
    requires
        width >= 1,
        i <= n <= text.len(),
    ensures
        index_upto(
            text,
            width,
            place(text.take(i as int), width).0,
            place(text.take(i as int), width).1,
            n,
        ) == Some(i),
    decreases n - i,
{
    if i < n {
        lemma_place_monotone(text, width, i as int, n as int);
        lemma_index_upto(text, width, i, (n - 1) as nat);
    }
}

/// Where the insertion point stands and which place stands there undo each
/// other: the row and the column of a place lead back to it.
pub proof fn law_row_and_column_lead_back(text: Seq<char>, width: nat, i: nat)
    requires
        width >= 1,
        i <= text.len(),
    ensures
        index_on_row(
            text,
            width,
            place(text.take(i as int), width).0,
            place(text.take(i as int), width).1,
        ) == Some(i),
{
    lemma_index_upto(text, width, i, text.len());
}

/// A character goes to the right of the one before it; after a line break, and
/// after the last column, the next row begins.
pub proof fn law_characters_follow_one_another(text: Seq<char>, c: char, width: nat)
    requires
        width >= 1,
    ensures
        place(Seq::empty(), width) == (0nat, 0nat),
        ({
            let (row, col) = place(text, width);
            let after = place(text.push(c), width);
            &&& c == '\n' ==> after == (row + 1, 0nat)
            &&& c != '\n' && col + 1 < width ==> after == (row, col + 1)
            &&& c != '\n' && col + 1 == width ==> after == (row + 1, 0nat)
        }),
{
    assert(text.push(c).drop_last() =~= text);
}

proof fn lemma_found(text: Seq<char>, width: nat, row: nat, column: nat, n: nat)
    requires
        n <= text.len(),
    ensures
        match index_upto(text, width, row, column, n) {
            Some(i) => {
                &&& i <= n
                &&& place(text.take(i as int), width).0 == row
                &&& place(text.take(i as int), width).1 <= column
                &&& forall|j: int|
                    i < j <= n ==> (#[trigger] place(text.take(j), width)).0 != row || place(
                        text.take(j),
                        width,
                    ).1 > column
            },
            None => forall|j: int|
                0 <= j <= n ==> (#[trigger] place(text.take(j), width)).0 != row || place(
                    text.take(j),
                    width,
                ).1 > column,
        },
    decreases n,
{
    let (r, c) = place(text.take(n as int), width);
    if !(r == row && c <= column) && n > 0 {
        lemma_found(text, width, row, column, (n - 1) as nat);
    }
}

/// The place on a row that is looked for stands on that row, not beyond the
/// column, and none nearer to the column is there; and it is found wherever
/// there is one.
pub proof fn law_the_nearest_place_is_found(
    text: Seq<char>,
    width: nat,
    row: nat,
    column: nat,
    j: int,
)
    requires
        width >= 1,
        0 <= j <= text.len(),
        place(text.take(j), width).0 == row,
        place(text.take(j), width).1 <= column,
    ensures
        index_on_row(text, width, row, column) is Some,
        ({
            let i = index_on_row(text, width, row, column)->0;
            &&& i <= text.len()
            &&& place(text.take(i as int), width).0 == row
            &&& place(text.take(j), width).1 <= place(text.take(i as int), width).1 <= column
        }),
{
    lemma_found(text, width, row, column, text.len());
    let i = index_on_row(text, width, row, column)->0;
    if j < i {
        lemma_place_monotone(text, width, j, i as int);
    }
}

/// A place that is found on a row stands on that row.
pub proof fn law_found_places_stand_on_their_row(
    text: Seq<char>,
    width: nat,
    row: nat,
    column: nat,
)
    requires
        index_on_row(text, width, row, column) is Some,
    ensures
        ({
            let i = index_on_row(text, width, row, column)->0;
            &&& i <= text.len()
            &&& place(text.take(i as int), width).0 == row
            &&& place(text.take(i as int), width).1 <= column
        }),
{
    lemma_found(text, width, row, column, text.len());
}

proof fn lemma_longer_encoding(a: Seq<char>, c: char)
    ensures
        encode_utf8(a.push(c)).len() > encode_utf8(a).len(),
    decreases a.len(),
{
    let whole = a.push(c);
    if a.len() == 0 {
        vstd::utf8::encode_utf8_first_scalar(whole);
        assert(encode_utf8(a).len() == 0);
        assert(encode_utf8(whole).len() > 0);
    } else {
        lemma_longer_encoding(a.drop_first(), c);
        assert(whole.drop_first() =~= a.drop_first().push(c));
        assert(whole[0] == a[0]);
    }
}

proof fn lemma_prefix_encoding(text: Seq<char>, i: int)
    requires
        0 <= i <= text.len(),
    ensures
        encode_utf8(text.take(i)).len() <= encode_utf8(text).len(),
    decreases text.len() - i,
{
    if i < text.len() {
        lemma_prefix_encoding(text, i + 1);
        lemma_longer_encoding(text.take(i), text[i]);
        assert(text.take(i).push(text[i]) =~= text.take(i + 1));
    } else {
        assert(text.take(i) =~= text);
    }
}

/// As many characters begin before a byte as are encoded before it, whatever
/// their lengths.
pub proof fn law_characters_before_a_byte_are_counted(text: Seq<char>, i: int)
    requires
        0 <= i <= text.len(),
    ensures
        chars_before(text, encode_utf8(text.take(i)).len()) == i,
    decreases text.len(),
{
    if text.len() > 0 {
        let front = text.drop_last();
        if i == text.len() {
            lemma_longer_encoding(front, text.last());
            assert(front.push(text.last()) =~= text);
            assert(text.take(i) =~= text);
        } else {
            lemma_prefix_encoding(front, i);
            assert(front.take(i) =~= text.take(i));
            law_characters_before_a_byte_are_counted(front, i);
        }
    }
}

}
