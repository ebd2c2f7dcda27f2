//! Lines, words, fields and joined text.
use crate::text::{extend, occurs_at, slice_copy, stands_at, trim_start, trimmed_start, white};
use crate::text::{chars_of, has_white, is_white, text_of};
use vstd::prelude::*;
use vstd::slice::slice_subrange;

verus! {

/// The contents of a list of character vectors.
pub open spec fn rows(v: Seq<Vec<char>>) -> Seq<Seq<char>> {
    v.map_values(|row: Vec<char>| row@)
}

/// The contents of a list of texts.
pub open spec fn texts(v: Seq<String>) -> Seq<Seq<char>> {
    v.map_values(|text: String| text@)
}

pub proof fn lemma_rows_push(v: Seq<Vec<char>>, row: Vec<char>)
    ensures
        rows(v.push(row)) == rows(v).push(row@),
{
    assert(rows(v.push(row)) =~= rows(v).push(row@));
}

pub proof fn lemma_texts_push(v: Seq<String>, text: String)
    ensures
        texts(v.push(text)) == texts(v).push(text@),
{
    assert(texts(v.push(text)) =~= texts(v).push(text@));
}

/// How many characters stand before the first `c` (all of them, where there is none).
pub open spec fn upto(s: Seq<char>, c: char) -> nat
    decreases s.len(),
{
    if s.len() == 0 || s[0] == c {
        0
    } else {
        1 + upto(s.drop_first(), c)
    }
}

/// `upto` is the place of the first `c`.
pub proof fn lemma_upto(s: Seq<char>, c: char)
    ensures
        upto(s, c) <= s.len(),
        forall|i: int| 0 <= i < upto(s, c) ==> s[i] != c,
        upto(s, c) < s.len() ==> s[upto(s, c) as int] == c,
    decreases s.len(),
{
    if s.len() > 0 && s[0] != c {
        lemma_upto(s.drop_first(), c);
        assert forall|i: int| 0 <= i < upto(s, c) implies s[i] != c by {
            if i > 0 {
                assert(s.drop_first()[i - 1] == s[i]);
            }
        }
    }
}

pub proof fn lemma_upto_unique(s: Seq<char>, c: char, k: nat)
    requires
        k <= s.len(),
        forall|i: int| 0 <= i < k ==> s[i] != c,
        k < s.len() ==> s[k as int] == c,
    ensures
        upto(s, c) == k,
{
    lemma_upto(s, c);
    let n = upto(s, c);
    if n < k {
        assert(s[n as int] != c);
    } else if k < n {
        assert(s[k as int] != c);
    }
}

pub fn count_upto(s: &[char], c: char) -> (n: usize)
    ensures
        n == upto(s@, c),
        n <= s@.len(),
        n < s@.len() ==> s@[n as int] == c,
        forall|i: int| 0 <= i < n ==> s@[i] != c,
{
    let mut i: usize = 0;
    while i < s.len() && s[i] != c
        invariant
            i <= s@.len(),
            forall|j: int| 0 <= j < i ==> s@[j] != c,
        decreases s@.len() - i,
    {
        i = i + 1;
    }
    proof {
        lemma_upto_unique(s@, c, i as nat);
    }
    i
}

// ---------------------------------------------------------------------------
// Lines
// ---------------------------------------------------------------------------

/// A line without the carriage return of a CR LF ending.
pub open spec fn without_return(line: Seq<char>) -> Seq<char> {
    if line.len() > 0 && line.last() == '\r' {
        line.drop_last()
    } else {
        line
    }
}

/// The lines of a text: a line ends before LF or CR LF, and the last one may
/// end with the text.
pub open spec fn lines(s: Seq<char>) -> Seq<Seq<char>>
    decreases s.len(),
{
    if s.len() == 0 {
        Seq::empty()
    } else {
        let k = upto(s, '\n') as int;
        if k >= s.len() {
            seq![s]
        } else {
            seq![without_return(s.take(k as int))] + lines(s.skip(k + 1))
        }
    }
}

pub fn split_lines(s: &[char]) -> (out: Vec<Vec<char>>)
    ensures
        rows(out@) == lines(s@),
{
    let mut out: Vec<Vec<char>> = Vec::new();
    let mut i: usize = 0;
    assert(s@.skip(0) =~= s@);
    assert(rows(out@) =~= Seq::<Seq<char>>::empty());
    assert(rows(out@) + lines(s@) =~= lines(s@));
    while i < s.len()
        invariant
            i <= s@.len(),
            rows(out@) + lines(s@.skip(i as int)) == lines(s@),
        decreases s@.len() - i,
    {
        let rest = slice_subrange(s, i, s.len());
        assert(rest@ =~= s@.skip(i as int));
        let k = count_upto(rest, '\n');
        let ghost before = rows(out@);
        if k >= rest.len() {
            let line = slice_copy(rest);
            proof {
                lemma_rows_push(out@, line);
            }
            out.push(line);
            i = s.len();
            proof {
                assert(s@.skip(i as int) =~= Seq::<char>::empty());
                assert(rows(out@) + lines(s@.skip(i as int)) =~= before + seq![rest@]);
            }
        } else {
            let n: usize = if k > 0 && rest[k - 1] == '\r' {
                k - 1
            } else {
                k
            };
            let part = slice_subrange(rest, 0, n);
            let line = slice_copy(part);
            proof {
                assert(line@ =~= without_return(rest@.take(k as int)));
                lemma_rows_push(out@, line);
                assert(rest@.skip(k + 1) =~= s@.skip(i + k + 1));
                assert(before + (seq![line@] + lines(rest@.skip(k + 1))) =~= before.push(line@)
                    + lines(rest@.skip(k + 1)));
            }
            out.push(line);
            i = i + k + 1;
        }
    }
    proof {
        assert(s@.skip(i as int) =~= Seq::<char>::empty());
        assert(rows(out@) + Seq::<Seq<char>>::empty() =~= rows(out@));
    }
    out
}

// ---------------------------------------------------------------------------
// Fields
// ---------------------------------------------------------------------------

/// The fields between every two `c`; there is always at least one.
pub open spec fn fields(s: Seq<char>, c: char) -> Seq<Seq<char>>
    decreases s.len(),
{
    let k = upto(s, c) as int;
    if k >= s.len() {
        seq![s]
    } else {
        seq![s.take(k as int)] + fields(s.skip(k + 1), c)
    }
}

pub fn split_fields(s: &[char], c: char) -> (out: Vec<Vec<char>>)
    ensures
        rows(out@) == fields(s@, c),
        out@.len() > 0,
{
    let mut out: Vec<Vec<char>> = Vec::new();
    let mut i: usize = 0;
    assert(s@.skip(0) =~= s@);
    assert(rows(out@) + fields(s@, c) =~= fields(s@, c));
    loop
        invariant
            i <= s@.len(),
            rows(out@) + fields(s@.skip(i as int), c) == fields(s@, c),
        decreases s@.len() - i,
    {
        let rest = slice_subrange(s, i, s.len());
        assert(rest@ =~= s@.skip(i as int));
        let k = count_upto(rest, c);
        let ghost before = rows(out@);
        let part = slice_subrange(rest, 0, k);
        let field = slice_copy(part);
        proof {
            lemma_rows_push(out@, field);
        }
        out.push(field);
        if k >= rest.len() {
            proof {
                assert(rest@.subrange(0, k as int) =~= rest@);
                assert(rows(out@) =~= before + seq![rest@]);
            }
            return out;
        }
        proof {
            assert(rest@.subrange(0, k as int) =~= rest@.take(k as int));
            assert(rest@.skip(k + 1) =~= s@.skip(i + k + 1));
            assert(before + (seq![field@] + fields(rest@.skip(k + 1), c)) =~= before.push(field@)
                + fields(rest@.skip(k + 1), c));
        }
        i = i + k + 1;
    }
}

// ---------------------------------------------------------------------------
// Words
// ---------------------------------------------------------------------------

/// How many characters stand before the first white space.
pub open spec fn word_len(s: Seq<char>) -> nat
    decreases s.len(),
{
    if s.len() == 0 || is_white(s[0]) {
        0
    } else {
        1 + word_len(s.drop_first())
    }
}

pub proof fn lemma_word_len(s: Seq<char>)
    ensures
        word_len(s) <= s.len(),
        forall|i: int| 0 <= i < word_len(s) ==> !is_white(#[trigger] s[i]),
        word_len(s) < s.len() ==> is_white(s[word_len(s) as int]),
    decreases s.len(),
{
    if s.len() > 0 && !is_white(s[0]) {
        lemma_word_len(s.drop_first());
        assert forall|i: int| 0 <= i < word_len(s) implies !is_white(#[trigger] s[i]) by {
            if i > 0 {
                assert(s.drop_first()[i - 1] == s[i]);
            }
        }
    }
}

pub proof fn lemma_trim_start(s: Seq<char>)
    ensures
        trim_start(s).len() <= s.len(),
        trim_start(s).len() > 0 ==> !is_white(trim_start(s)[0]),
        trim_start(s) == s.skip(s.len() - trim_start(s).len()),
    decreases s.len(),
{
    if s.len() > 0 && is_white(s[0]) {
        lemma_trim_start(s.drop_first());
        let t = trim_start(s);
        assert(s.drop_first().skip(s.drop_first().len() - t.len()) =~= s.skip(s.len() - t.len()));
    } else {
        assert(s.skip(0) =~= s);
    }
}

/// The words of a text: its longest runs without white space.
pub open spec fn words(s: Seq<char>) -> Seq<Seq<char>>
    decreases s.len(),
{
    let t = trim_start(s);
    if t.len() == 0 {
        Seq::empty()
    } else {
        proof {
            lemma_trim_start(s);
            lemma_word_len(t);
        }
        let k = word_len(t);
        seq![t.take(k as int)] + words(t.skip(k as int))
    }
}

pub fn split_words(s: &[char]) -> (out: Vec<Vec<char>>)
    ensures
        rows(out@) == words(s@),
{
    let mut out: Vec<Vec<char>> = Vec::new();
    let mut i: usize = 0;
    assert(s@.skip(0) =~= s@);
    assert(rows(out@) + words(s@) =~= words(s@));
    loop
        invariant
            i <= s@.len(),
            rows(out@) + words(s@.skip(i as int)) == words(s@),
        decreases s@.len() - i,
    {
        let rest = slice_subrange(s, i, s.len());
        assert(rest@ =~= s@.skip(i as int));
        let t = trimmed_start(rest);
        let ghost before = rows(out@);
        if t.len() == 0 {
            assert(before + Seq::<Seq<char>>::empty() =~= before);
            return out;
        }
        let mut k: usize = 0;
        while k < t.len() && !white(t[k])
            invariant
                k <= t@.len(),
                forall|j: int| 0 <= j < k ==> !is_white(#[trigger] t@[j]),
            decreases t@.len() - k,
        {
            k = k + 1;
        }
        proof {
            lemma_trim_start(rest@);
            lemma_word_len(t@);
            let n = word_len(t@);
            if n < k {
                assert(!is_white(t@[n as int]));
            } else if k < n {
                assert(!is_white(t@[k as int]));
            }
            assert(k == n);
            assert(k > 0);
        }
        let part = slice_subrange(t, 0, k);
        let word = slice_copy(part);
        proof {
            lemma_rows_push(out@, word);
            assert(word@ =~= t@.take(k as int));
            assert(t@.skip(k as int) =~= s@.skip(s@.len() - t@.len() + k));
            assert(before + (seq![word@] + words(t@.skip(k as int))) =~= before.push(word@) + words(
                t@.skip(k as int),
            ));
        }
        out.push(word);
        i = s.len() - t.len() + k;
    }
}

// ---------------------------------------------------------------------------
// Joining and replacing
// ---------------------------------------------------------------------------

/// The parts, with `sep` between every two.
pub open spec fn join(parts: Seq<Seq<char>>, sep: Seq<char>) -> Seq<char>
    decreases parts.len(),
{
    if parts.len() == 0 {
        Seq::empty()
    } else if parts.len() == 1 {
        parts[0]
    } else {
        join(parts.drop_last(), sep) + sep + parts.last()
    }
}

pub fn join_texts(parts: &Vec<String>, sep: &str) -> (out: String)
    ensures
        out@ == join(texts(parts@), sep@),
{
    let mut out: Vec<char> = Vec::new();
    let mut i: usize = 0;
    let between = chars_of(sep);
    let ghost all = texts(parts@);
    while i < parts.len()
        invariant
            i <= parts@.len(),
            all == texts(parts@),
            between@ == sep@,
            out@ == join(all.take(i as int), sep@),
        decreases parts@.len() - i,
    {
        let part = chars_of(parts[i].as_str());
        proof {
            assert(all.take(i + 1).drop_last() =~= all.take(i as int));
            assert(all.take(i + 1).last() == part@);
        }
        if i > 0 {
            extend(&mut out, between.as_slice());
        }
        extend(&mut out, part.as_slice());
        proof {
            if i == 0 {
                assert(out@ =~= part@);
            }
        }
        i = i + 1;
    }
    assert(all.take(i as int) =~= all);
    text_of(out.as_slice())
}

pub fn join_rows(parts: &Vec<Vec<char>>, sep: &str) -> (out: Vec<char>)
    ensures
        out@ == join(rows(parts@), sep@),
{
    let mut out: Vec<char> = Vec::new();
    let mut i: usize = 0;
    let between = chars_of(sep);
    let ghost all = rows(parts@);
    while i < parts.len()
        invariant
            i <= parts@.len(),
            all == rows(parts@),
            between@ == sep@,
            out@ == join(all.take(i as int), sep@),
        decreases parts@.len() - i,
    {
        proof {
            assert(all.take(i + 1).drop_last() =~= all.take(i as int));
            assert(all.take(i + 1).last() == parts@[i as int]@);
        }
        if i > 0 {
            extend(&mut out, between.as_slice());
        }
        extend(&mut out, parts[i].as_slice());
        proof {
            if i == 0 {
                assert(out@ =~= parts@[0]@);
            }
        }
        i = i + 1;
    }
    assert(all.take(i as int) =~= all);
    out
}

/// Every occurrence of `p`, from the left and without overlap, replaced by `w`.
pub open spec fn replaced(s: Seq<char>, p: Seq<char>, w: Seq<char>) -> Seq<char>
    decreases s.len(),
{
    if s.len() == 0 || p.len() == 0 {
        s
    } else if occurs_at(s, p, 0) {
        w + replaced(s.skip(p.len() as int), p, w)
    } else {
        seq![s[0]] + replaced(s.drop_first(), p, w)
    }
}

pub fn replace(s: &[char], p: &[char], w: &[char]) -> (out: Vec<char>)
    requires
        p@.len() > 0,
    ensures
        out@ == replaced(s@, p@, w@),
{
    let mut out: Vec<char> = Vec::new();
    let mut i: usize = 0;
    assert(s@.skip(0) =~= s@);
    assert(out@ + replaced(s@, p@, w@) =~= replaced(s@, p@, w@));
    while i < s.len()
        invariant
            i <= s@.len(),
            p@.len() > 0,
            out@ + replaced(s@.skip(i as int), p@, w@) == replaced(s@, p@, w@),
        decreases s@.len() - i,
    {
        let ghost rest = s@.skip(i as int);
        let ghost before = out@;
        proof {
            if i + p@.len() <= s@.len() {
                assert(rest.subrange(0, p@.len() as int) =~= s@.subrange(i as int, i + p@.len()));
            }
            assert(occurs_at(s@, p@, i as int) == occurs_at(rest, p@, 0));
        }
        if stands_at(s, p, i) {
            extend(&mut out, w);
            i = i + p.len();
            proof {
                assert(rest.skip(p@.len() as int) =~= s@.skip(i as int));
                assert(before + (w@ + replaced(s@.skip(i as int), p@, w@)) =~= out@ + replaced(
                    s@.skip(i as int),
                    p@,
                    w@,
                ));
            }
        } else {
            out.push(s[i]);
            i = i + 1;
            proof {
                assert(rest.drop_first() =~= s@.skip(i as int));
                assert(before + (seq![rest[0]] + replaced(s@.skip(i as int), p@, w@)) =~= out@
                    + replaced(s@.skip(i as int), p@, w@));
            }
        }
    }
    proof {
        assert(s@.skip(i as int) =~= Seq::<char>::empty());
        assert(out@ + Seq::<char>::empty() =~= out@);
    }
    out
}

// ---------------------------------------------------------------------------
// Laws
// ---------------------------------------------------------------------------

proof fn lemma_join_front(first: Seq<char>, rest: Seq<Seq<char>>, sep: Seq<char>)
    requires
        rest.len() > 0,
    ensures
        join(seq![first] + rest, sep) == first + sep + join(rest, sep),
    decreases rest.len(),
{
    let all = seq![first] + rest;
    if rest.len() == 1 {
        assert(all.drop_last() =~= seq![first]);
        assert(join(all.drop_last(), sep) == first);
        assert(join(all, sep) =~= first + sep + join(rest, sep));
    } else {
        assert(all.drop_last() =~= seq![first] + rest.drop_last());
        lemma_join_front(first, rest.drop_last(), sep);
        assert(join(all, sep) =~= first + sep + join(rest, sep));
    }
}

/// Joined parts follow one another, with the separator between every two.
pub proof fn law_joined_parts_follow_one_another(
    parts: Seq<Seq<char>>,
    part: Seq<char>,
    sep: Seq<char>,
)
    ensures
        join(parts.push(part), sep) == (if parts.len() > 0 {
            join(parts, sep) + sep + part
        } else {
            part
        }),
{
    assert(parts.push(part).drop_last() =~= parts);
}

/// The fields of a text, joined, are the text, and none holds the separator.
pub proof fn law_fields_join_back(s: Seq<char>, c: char)
    ensures
        join(fields(s, c), seq![c]) == s,
        fields(s, c).len() > 0,
        forall|i: int| 0 <= i < fields(s, c).len() ==> !(#[trigger] fields(s, c)[i]).contains(c),
    decreases s.len(),
{
    lemma_upto(s, c);
    let k = upto(s, c) as int;
    let all = fields(s, c);
    if k >= s.len() {
        assert(!s.contains(c));
    } else {
        let rest = fields(s.skip(k + 1), c);
        law_fields_join_back(s.skip(k + 1), c);
        lemma_join_front(s.take(k), rest, seq![c]);
        assert(join(all, seq![c]) =~= s);
        assert forall|i: int| 0 <= i < all.len() implies !(#[trigger] all[i]).contains(c) by {
            if i > 0 {
                assert(all[i] == rest[i - 1]);
            } else {
                if all[0].contains(c) {
                    let j = choose|j: int| 0 <= j < all[0].len() && all[0][j] == c;
                    assert(s[j] == c);
                }
            }
        }
    }
}

/// The lines of a text, joined, are the text, but for the line feed at its
/// end; and none holds a line feed. (Where a line ends with CR LF, the CR is
/// no part of it either.)
pub proof fn law_lines_join_back(s: Seq<char>)
    requires
        !s.contains('\r'),
    ensures
        s.len() > 0 && s.last() == '\n' ==> join(lines(s), seq!['\n']) + seq!['\n'] == s,
        s.len() == 0 || s.last() != '\n' ==> join(lines(s), seq!['\n']) == s,
        forall|i: int| 0 <= i < lines(s).len() ==> !(#[trigger] lines(s)[i]).contains('\n'),
        s.len() > 0 ==> lines(s).len() > 0,
    decreases s.len(),
{
    let sep = seq!['\n'];
    let all = lines(s);
    lemma_upto(s, '\n');
    let k = upto(s, '\n') as int;
    if s.len() == 0 {
        assert(join(all, sep) =~= s);
    } else if k >= s.len() {
        assert(!s.contains('\n'));
        assert(s.last() != '\n') by {
            assert(s.contains(s.last()));
        }
    } else {
        let first = s.take(k);
        let tail = s.skip(k + 1);
        let rest = lines(tail);
        assert(!tail.contains('\r')) by {
            if tail.contains('\r') {
                let j = choose|j: int| 0 <= j < tail.len() && tail[j] == '\r';
                assert(s[j + k + 1] == '\r');
            }
        }
        assert(without_return(first) == first) by {
            if first.len() > 0 && first.last() == '\r' {
                assert(s[k - 1] == '\r');
            }
        }
        law_lines_join_back(tail);
        if tail.len() == 0 {
            assert(rest =~= Seq::empty());
            assert(all =~= seq![first]);
            assert(join(all, sep) == first);
            assert(first + sep =~= s);
        } else {
            assert(all =~= seq![first] + rest);
            lemma_join_front(first, rest, sep);
            assert(tail.last() == s.last());
            if s.last() == '\n' {
                assert(join(all, sep) + sep =~= first + sep + tail);
                assert(first + sep + tail =~= s);
            } else {
                assert(join(all, sep) =~= s);
            }
        }
        assert forall|i: int| 0 <= i < all.len() implies !(#[trigger] all[i]).contains('\n') by {
            if i > 0 {
                assert(all[i] == rest[i - 1]);
            } else if all[0].contains('\n') {
                let j = choose|j: int| 0 <= j < all[0].len() && all[0][j] == '\n';
                assert(s[j] == '\n');
            }
        }
    }
}

/// A text without its white space.
pub open spec fn dense(s: Seq<char>) -> Seq<char>
    decreases s.len(),
{
    if s.len() == 0 {
        Seq::empty()
    } else if is_white(s[0]) {
        dense(s.skip(1))
    } else {
        seq![s[0]] + dense(s.skip(1))
    }
}

/// Texts one after the other.
pub open spec fn concatenated(parts: Seq<Seq<char>>) -> Seq<char>
    decreases parts.len(),
{
    if parts.len() == 0 {
        Seq::empty()
    } else {
        parts[0] + concatenated(parts.skip(1))
    }
}

proof fn lemma_dense_trim(s: Seq<char>)
    ensures
        dense(trim_start(s)) == dense(s),
    decreases s.len(),
{
    if s.len() > 0 && is_white(s[0]) {
        assert(s.drop_first() =~= s.skip(1));
        lemma_dense_trim(s.drop_first());
    }
}

proof fn lemma_dense_word(s: Seq<char>, k: int)
    requires
        0 <= k <= s.len(),
        forall|i: int| 0 <= i < k ==> !is_white(#[trigger] s[i]),
    ensures
        dense(s) == s.take(k) + dense(s.skip(k)),
    decreases k,
{
    if k == 0 {
        assert(s.skip(0) =~= s);
        assert(s.take(0) + dense(s) =~= dense(s));
    } else {
        let t = s.skip(1);
        assert forall|i: int| 0 <= i < k - 1 implies !is_white(#[trigger] t[i]) by {
            assert(t[i] == s[i + 1]);
        }
        lemma_dense_word(t, k - 1);
        assert(t.skip(k - 1) =~= s.skip(k));
        assert(!is_white(s[0]));
        assert(seq![s[0]] + (t.take(k - 1) + dense(s.skip(k))) =~= s.take(k) + dense(s.skip(k)));
    }
}

/// The words of a text are all of it but its white space, in order; each
/// holds something, and none holds white space.
pub proof fn law_words_make_up_the_text(s: Seq<char>)
    ensures
        concatenated(words(s)) == dense(s),
        forall|i: int|
            0 <= i < words(s).len() ==> (#[trigger] words(s)[i]).len() > 0 && !has_white(
                words(s)[i],
            ),
    decreases s.len(),
{
    let t = trim_start(s);
    let all = words(s);
    lemma_dense_trim(s);
    if t.len() == 0 {
        assert(concatenated(all) =~= dense(s));
    } else {
        lemma_trim_start(s);
        lemma_word_len(t);
        let k = word_len(t) as int;
        let rest = words(t.skip(k));
        law_words_make_up_the_text(t.skip(k));
        lemma_dense_word(t, k);
        assert(all.skip(1) =~= rest);
        assert forall|i: int| 0 <= i < all.len() implies (#[trigger] all[i]).len() > 0
            && !has_white(all[i]) by {
            if i > 0 {
                assert(all[i] == rest[i - 1]);
            } else {
                assert(all[0] == t.take(k));
            }
        }
    }
}

/// Where a text does not occur, nothing is replaced.
pub proof fn law_nothing_else_is_replaced(s: Seq<char>, p: Seq<char>, w: Seq<char>)
    requires
        p.len() > 0,
        forall|i: int| !occurs_at(s, p, i),
    ensures
        replaced(s, p, w) == s,
    decreases s.len(),
{
    if s.len() > 0 {
        let t = s.drop_first();
        assert(!occurs_at(s, p, 0));
        assert forall|i: int| !occurs_at(t, p, i) by {
            if occurs_at(t, p, i) {
                assert(s.subrange(i + 1, i + 1 + p.len()) =~= t.subrange(i, i + p.len()));
                assert(occurs_at(s, p, i + 1));
            }
        }
        law_nothing_else_is_replaced(t, p, w);
        assert(seq![s[0]] + t =~= s);
    }
}

/// The first occurrence is replaced, what stands before it stays, and what
/// follows it is searched on.
pub proof fn law_occurrences_are_replaced(a: Seq<char>, p: Seq<char>, b: Seq<char>, w: Seq<char>)
    requires
        p.len() > 0,
        forall|i: int| 0 <= i < a.len() ==> !occurs_at(a + p + b, p, i),
    ensures
        replaced(a + p + b, p, w) == a + w + replaced(b, p, w),
    decreases a.len(),
{
    let s = a + p + b;
    if a.len() == 0 {
        assert(s.subrange(0, p.len() as int) =~= p);
        assert(s.skip(p.len() as int) =~= b);
        assert(a + w + replaced(b, p, w) =~= w + replaced(b, p, w));
    } else {
        let t = a.drop_first();
        assert(s.drop_first() =~= t + p + b);
        assert forall|i: int| 0 <= i < t.len() implies !occurs_at(t + p + b, p, i) by {
            if occurs_at(t + p + b, p, i) {
                assert(s.subrange(i + 1, i + 1 + p.len()) =~= (t + p + b).subrange(
                    i,
                    i + p.len(),
                ));
                assert(occurs_at(s, p, i + 1));
            }
        }
        law_occurrences_are_replaced(t, p, b, w);
        assert(!occurs_at(s, p, 0));
        assert(seq![s[0]] + (t + w + replaced(b, p, w)) =~= a + w + replaced(b, p, w));
    }
}

/// A word is not taken apart.
pub proof fn law_words_are_whole(s: Seq<char>)
    requires
        s.len() > 0,
        !has_white(s),
    ensures
        words(s) == seq![s],
{
    assert(!is_white(s[0]));
    lemma_word_len(s);
    let k = word_len(s) as int;
    assert(k == s.len()) by {
        if k < s.len() {
            assert(is_white(s[k]));
        }
    }
    assert(s.take(k) =~= s);
    assert(s.skip(k) =~= Seq::empty());
    assert(words(s.skip(k)) =~= Seq::empty());
    assert(words(s) =~= seq![s]);
}

}
