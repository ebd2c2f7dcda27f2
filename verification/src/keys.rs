//! Keys that a terminal sends as escape sequences.
use crate::lines::{fields, lemma_upto, rows, split_fields, upto};
use crate::number::{decimal, lemma_decimal, parse_index, parse_usize};
use crate::text::{
    chars_of, ends, ends_with, is_digit, same_chars, starts, starts_text, trim_end_of,
    trimmed_end_of,
};
use vstd::prelude::*;

verus! {

/// What a key that begins with Escape asks for.
#[derive(Clone, Copy, Debug, PartialEq, Eq, Structural)]
pub enum Navigation {
    Escape,
    /// Escape, and another key at once.
    EscapeWith(u8),
    ScrollPage(i32),
    ScrollLines(i32),
    Up,
    Down,
    Left,
    Right,
    Home,
    End,
    Delete,
    Newline,
    FollowUp,
    PasteImage,
    /// The wheel was turned over a row.
    MouseScroll(i32, usize),
    Other,
}

/// How long the next byte of a sequence may take, in milliseconds.
pub const ESCAPE_WAIT: u64 = 25;

/// How many bytes a sequence may have.
pub const MAX_SEQUENCE: usize = 32;

/// The row that a report of the mouse ends with.
pub open spec fn mouse_row(s: Seq<char>) -> usize {
    match parse_usize(fields(trim_end_of(s, 'M'), ';').last()) {
        Some(n) => n as usize,
        None => 0,
    }
}

/// What the sequence `s`, after Escape and a bracket, asks for.
pub open spec fn sequence_key(s: Seq<char>) -> Navigation {
    if s == "118;3u"@ || s == "118;5u"@ || s == "27;3;118~"@ || s == "27;5;118~"@ || s
        == "118;3:1u"@ || s == "118;5:1u"@ || s == "118;3:2u"@ || s == "118;5:2u"@ {
        Navigation::PasteImage
    } else if s == "13;2u"@ || s == "27;2;13~"@ || s == "13;2~"@ || s == "13;5u"@ || s
        == "27;5;13~"@ || s == "13;5~"@ {
        Navigation::Newline
    } else if s == "13;3u"@ || s == "27;3;13~"@ || s == "13;3~"@ {
        Navigation::FollowUp
    } else if s == "3~"@ {
        Navigation::Delete
    } else if s == "C"@ {
        Navigation::Right
    } else if s == "D"@ {
        Navigation::Left
    } else if s == "5~"@ {
        Navigation::ScrollPage(1)
    } else if s == "6~"@ {
        Navigation::ScrollPage((-1) as i32)
    } else if s == "A"@ {
        Navigation::Up
    } else if s == "B"@ {
        Navigation::Down
    } else if s == "H"@ || s == "1~"@ {
        Navigation::Home
    } else if s == "F"@ || s == "4~"@ {
        Navigation::End
    } else if starts(s, "<64;"@) && ends(s, "M"@) {
        Navigation::MouseScroll(3, mouse_row(s))
    } else if starts(s, "<65;"@) && ends(s, "M"@) {
        Navigation::MouseScroll((-3) as i32, mouse_row(s))
    } else {
        Navigation::Other
    }
}

/// A sequence that is being read.
pub struct EscapeKey {
    /// Whether the bracket after Escape was read.
    pub bracket: bool,
    pub sequence: Vec<char>,
}

/// What an [`EscapeKey`] holds.
#[verifier::ext_equal]
pub struct EscapeView {
    pub bracket: bool,
    pub sequence: Seq<char>,
}

impl View for EscapeKey {
    type V = EscapeView;

    open spec fn view(&self) -> EscapeView {
        EscapeView { bracket: self.bracket, sequence: self.sequence@ }
    }
}

/// How many bytes it takes to write characters below 256.
pub open spec fn byte_size(s: Seq<char>) -> nat
    decreases s.len(),
{
    if s.len() == 0 {
        0
    } else {
        byte_size(s.drop_last()) + if s.last() as u32 >= 128 {
            2nat
        } else {
            1nat
        }
    }
}

/// A byte that ends a sequence.
pub open spec fn final_byte(b: u8) -> bool {
    (65 <= b <= 90) || (97 <= b <= 122) || b == 126
}

/// What the next byte makes of a sequence; `None` means that none came.
pub open spec fn escape_step(k: EscapeView, next: Option<u8>) -> (EscapeView, Option<Navigation>) {
    if !k.bracket {
        match next {
            None => (k, Some(Navigation::Escape)),
            Some(b) => if b == 91 {
                (EscapeView { bracket: true, ..k }, None)
            } else if b == 118 {
                (k, Some(Navigation::PasteImage))
            } else if b == 13 || b == 10 {
                (k, Some(Navigation::FollowUp))
            } else {
                (k, Some(Navigation::EscapeWith(b)))
            },
        }
    } else {
        match next {
            None => (k, Some(sequence_key(k.sequence))),
            Some(b) => {
                let sequence = k.sequence.push(b as char);
                let k = EscapeView { sequence, ..k };
                if final_byte(b) || byte_size(sequence) >= MAX_SEQUENCE {
                    (k, Some(sequence_key(sequence)))
                } else {
                    (k, None)
                }
            },
        }
    }
}

fn is(s: &[char], literal: &str) -> (r: bool)
    ensures
        r == (s@ == literal@),
{
    let chars = chars_of(literal);
    same_chars(s, chars.as_slice())
}

fn row_of(s: &[char]) -> (n: usize)
    ensures
        n == mouse_row(s@),
{
    let parts = split_fields(trimmed_end_of(s, 'M'), ';');
    assert(rows(parts@).len() > 0);
    let n: usize = parts.len();
    assert(rows(parts@).last() == parts@[n - 1]@);
    match parse_index(parts[n - 1].as_slice()) {
        Some(row) => row,
        None => 0,
    }
}

/// What a sequence, after Escape and a bracket, asks for.
pub fn sequence_navigation(s: &[char]) -> (r: Navigation)
    ensures
        r == sequence_key(s@),
{
    if is(s, "118;3u") || is(s, "118;5u") || is(s, "27;3;118~") || is(s, "27;5;118~") || is(
        s,
        "118;3:1u",
    ) || is(s, "118;5:1u") || is(s, "118;3:2u") || is(s, "118;5:2u") {
        return Navigation::PasteImage;
    }
    if is(s, "13;2u") || is(s, "27;2;13~") || is(s, "13;2~") || is(s, "13;5u") || is(s, "27;5;13~")
        || is(s, "13;5~") {
        return Navigation::Newline;
    }
    if is(s, "13;3u") || is(s, "27;3;13~") || is(s, "13;3~") {
        return Navigation::FollowUp;
    }
    if is(s, "3~") {
        return Navigation::Delete;
    }
    if is(s, "C") {
        return Navigation::Right;
    }
    if is(s, "D") {
        return Navigation::Left;
    }
    if is(s, "5~") {
        return Navigation::ScrollPage(1);
    }
    if is(s, "6~") {
        return Navigation::ScrollPage(-1);
    }
    if is(s, "A") {
        return Navigation::Up;
    }
    if is(s, "B") {
        return Navigation::Down;
    }
    if is(s, "H") || is(s, "1~") {
        return Navigation::Home;
    }
    if is(s, "F") || is(s, "4~") {
        return Navigation::End;
    }
    let end = chars_of("M");
    if starts_text(s, "<64;") && ends_with(s, end.as_slice()) {
        return Navigation::MouseScroll(3, row_of(s));
    }
    if starts_text(s, "<65;") && ends_with(s, end.as_slice()) {
        return Navigation::MouseScroll(-3, row_of(s));
    }
    Navigation::Other
}

impl EscapeKey {
    /// Escape was read.
    pub fn new() -> (r: Self)
        ensures
            r@ == (EscapeView { bracket: false, sequence: Seq::empty() }),
    {
        let r = EscapeKey { bracket: false, sequence: Vec::new() };
        assert(r@.sequence =~= Seq::empty());
        r
    }

    fn size(&self) -> (n: u64)
        requires
            byte_size(self@.sequence) < 1000,
        ensures
            n == byte_size(self@.sequence),
    {
        let mut n: u64 = 0;
        let mut i: usize = 0;
        assert(self.sequence@.take(0) =~= Seq::empty());
        while i < self.sequence.len()
            invariant
                i <= self.sequence@.len(),
                n == byte_size(self.sequence@.take(i as int)),
                byte_size(self.sequence@) < 1000,
            decreases self.sequence@.len() - i,
        {
            proof {
                let part = self.sequence@.take(i + 1);
                assert(part.drop_last() =~= self.sequence@.take(i as int));
                lemma_size_prefix(self.sequence@, i as int);
            }
            n = n + if self.sequence[i] as u32 >= 128 {
                2
            } else {
                1
            };
            i = i + 1;
        }
        assert(self.sequence@.take(i as int) =~= self.sequence@);
        n
    }

    /// Take the next byte, or that none came in time. What the key asks for,
    /// once that is known.
    pub fn feed(&mut self, next: Option<u8>) -> (r: Option<Navigation>)
        requires
            byte_size(old(self)@.sequence) < MAX_SEQUENCE,
        ensures
            (final(self)@, r) == escape_step(old(self)@, next),
            r is None ==> byte_size(final(self)@.sequence) < MAX_SEQUENCE,
    {
        if !self.bracket {
            return match next {
                None => Some(Navigation::Escape),
                Some(b) => if b == 91 {
                    self.bracket = true;
                    assert(self@ =~= (EscapeView { bracket: true, ..old(self)@ }));
                    None
                } else if b == 118 {
                    Some(Navigation::PasteImage)
                } else if b == 13 || b == 10 {
                    Some(Navigation::FollowUp)
                } else {
                    Some(Navigation::EscapeWith(b))
                },
            };
        }
        match next {
            None => Some(sequence_navigation(self.sequence.as_slice())),
            Some(b) => {
                self.sequence.push(b as char);
                assert(self@.sequence.drop_last() =~= old(self)@.sequence);
                assert(self@ =~= (EscapeView {
                    sequence: old(self)@.sequence.push(b as char),
                    ..old(self)@
                }));
                if (65 <= b && b <= 90) || (97 <= b && b <= 122) || b == 126 || self.size()
                    >= MAX_SEQUENCE as u64 {
                    Some(sequence_navigation(self.sequence.as_slice()))
                } else {
                    None
                }
            },
        }
    }
}

proof fn lemma_size_bounds(s: Seq<char>)
    ensures
        s.len() <= byte_size(s) <= 2 * s.len(),
    decreases s.len(),
{
    if s.len() > 0 {
        lemma_size_bounds(s.drop_last());
    }
}

proof fn lemma_size_prefix(s: Seq<char>, i: int)
    requires
        0 <= i <= s.len(),
    ensures
        byte_size(s.take(i)) <= byte_size(s),
    decreases s.len(),
{
    if i < s.len() {
        lemma_size_prefix(s.drop_last(), i);
        assert(s.drop_last().take(i) =~= s.take(i));
    } else {
        assert(s.take(i) =~= s);
    }
}

/// What a key means while Pi works and nothing can be typed.
#[derive(Clone, Copy, Debug, PartialEq, Eq, Structural)]
pub enum KeyAction {
    Ignore,
    Stop,
    Scroll(Navigation),
}

pub open spec fn key_action_of(key: u8, nav: Navigation) -> KeyAction {
    if key != 27 {
        KeyAction::Ignore
    } else if nav == Navigation::Escape || nav is EscapeWith {
        KeyAction::Stop
    } else {
        KeyAction::Scroll(nav)
    }
}

/// What a key means while Pi works and nothing can be typed. `nav` is what an
/// escape sequence stands for: those of the mouse and of pages move the
/// conversation.
pub fn key_action(key: u8, nav: Navigation) -> (r: KeyAction)
    ensures
        r == key_action_of(key, nav),
{
    if key != 27 {
        return KeyAction::Ignore;
    }
    match nav {
        Navigation::Escape => KeyAction::Stop,
        Navigation::EscapeWith(_) => KeyAction::Stop,
        _ => KeyAction::Scroll(nav),
    }
}

// ---------------------------------------------------------------------------
// Laws
// ---------------------------------------------------------------------------

/// A sequence is never read forever: at the latest its 32nd byte ends it.
pub proof fn law_sequences_are_bounded(k: EscapeView, b: u8)
    requires
        k.bracket,
        k.sequence.len() >= MAX_SEQUENCE - 1,
    ensures
        escape_step(k, Some(b)).1 is Some,
{
    lemma_size_bounds(k.sequence.push(b as char));
}

/// Escape alone, and Escape with another key at once, are told apart from a
/// sequence: only a bracket begins one.
pub proof fn law_only_a_bracket_begins_a_sequence(k: EscapeView, b: u8)
    requires
        !k.bracket,
    ensures
        escape_step(k, None).1 == Some(Navigation::Escape),
        escape_step(k, Some(b)).1 is None <==> b == 91,
{
}


/// Nothing but Escape itself stops a run.
pub proof fn law_only_escape_stops(key: u8, nav: Navigation)
    ensures
        key_action_of(key, nav) == KeyAction::Stop ==> key == 27 && (nav == Navigation::Escape
            || nav is EscapeWith),
{
}

/// Turning the wheel over a row scrolls there, towards the beginning or the
/// end; where it was turned is the last number of the report.
pub proof fn law_the_wheel_scrolls_where_it_is(up: bool, column: Seq<char>, row: nat)
    requires
        row <= usize::MAX,
        !column.contains(';'),
    ensures
        sequence_key(
            (if up {
                "<64;"@
            } else {
                "<65;"@
            }) + column + seq![';'] + decimal(row) + seq!['M'],
        ) == Navigation::MouseScroll(
            if up {
                3i32
            } else {
                (-3) as i32
            },
            row as usize,
        ),
{
    let head = if up {
        "<64;"@
    } else {
        "<65;"@
    };
    let s = head + column + seq![';'] + decimal(row) + seq!['M'];
    let body = head + column + seq![';'] + decimal(row);
    reveal_strlit("<64;");
    reveal_strlit("<65;");
    reveal_strlit("M");
    lemma_decimal(row);
    assert(s.drop_last() =~= body);
    assert(is_digit(decimal(row)[decimal(row).len() - 1]));
    assert(body.last() == decimal(row).last());
    assert(trim_end_of(s, 'M') == trim_end_of(body, 'M'));
    assert(trim_end_of(body, 'M') == body);
    assert(!decimal(row).contains(';')) by {
        if decimal(row).contains(';') {
            let i = choose|i: int| 0 <= i < decimal(row).len() && decimal(row)[i] == ';';
            assert(is_digit(decimal(row)[i]));
        }
    }
    assert(body =~= (head + column) + seq![';'] + decimal(row));
    lemma_last_field(head + column, decimal(row));
    crate::number::law_numbers_read_back(row, usize::MAX as nat);
    assert(s.subrange(0, 4) =~= head);
    assert(s.subrange(s.len() - 1, s.len() as int) =~= "M"@);
    assert(s[0] == '<');
    assert(s[2] == if up {
        '4'
    } else {
        '5'
    });
    lemma_not_a_key(s);
    if !up {
        assert(!starts(s, "<64;"@)) by {
            if starts(s, "<64;"@) {
                assert(s.subrange(0, 4)[2] == '4');
            }
        }
    }
}

/// No key but the wheel begins with this mark.
proof fn lemma_not_a_key(s: Seq<char>)
    requires
        s.len() > 0,
        s[0] == '<',
    ensures
        s != "118;3u"@ && s != "118;5u"@ && s != "27;3;118~"@ && s != "27;5;118~"@,
        s != "118;3:1u"@ && s != "118;5:1u"@ && s != "118;3:2u"@ && s != "118;5:2u"@,
        s != "13;2u"@ && s != "27;2;13~"@ && s != "13;2~"@ && s != "13;5u"@ && s != "27;5;13~"@,
        s != "13;5~"@ && s != "13;3u"@ && s != "27;3;13~"@ && s != "13;3~"@ && s != "3~"@,
        s != "C"@ && s != "D"@ && s != "5~"@ && s != "6~"@ && s != "A"@ && s != "B"@ && s != "H"@,
        s != "1~"@ && s != "F"@ && s != "4~"@,
{
    reveal_strlit("118;3u");
    reveal_strlit("118;5u");
    reveal_strlit("27;3;118~");
    reveal_strlit("27;5;118~");
    reveal_strlit("118;3:1u");
    reveal_strlit("118;5:1u");
    reveal_strlit("118;3:2u");
    reveal_strlit("118;5:2u");
    reveal_strlit("13;2u");
    reveal_strlit("27;2;13~");
    reveal_strlit("13;2~");
    reveal_strlit("13;5u");
    reveal_strlit("27;5;13~");
    reveal_strlit("13;5~");
    reveal_strlit("13;3u");
    reveal_strlit("27;3;13~");
    reveal_strlit("13;3~");
    reveal_strlit("3~");
    reveal_strlit("C");
    reveal_strlit("D");
    reveal_strlit("5~");
    reveal_strlit("6~");
    reveal_strlit("A");
    reveal_strlit("B");
    reveal_strlit("H");
    reveal_strlit("1~");
    reveal_strlit("F");
    reveal_strlit("4~");
}

proof fn lemma_last_field(a: Seq<char>, b: Seq<char>)
    requires
        !b.contains(';'),
    ensures
        fields(a + seq![';'] + b, ';').last() == b,
    decreases a.len(),
{
    let s = a + seq![';'] + b;
    lemma_upto(s, ';');
    let k = upto(s, ';') as int;
    assert(s[a.len() as int] == ';');
    assert(k <= a.len());
    let tail = s.skip(k + 1);
    let rest = fields(tail, ';');
    crate::lines::law_fields_join_back(tail, ';');
    if k == a.len() {
        assert(tail =~= b);
        lemma_upto(b, ';');
        assert(upto(b, ';') >= b.len()) by {
            if upto(b, ';') < b.len() {
                assert(b[upto(b, ';') as int] == ';');
            }
        }
        assert(rest =~= seq![b]);
    } else {
        assert(tail =~= a.skip(k + 1) + seq![';'] + b);
        lemma_last_field(a.skip(k + 1), b);
    }
    assert(fields(s, ';') =~= seq![s.take(k)] + rest);
}

/// A sequence is read byte by byte until its final one, and means what all of
/// them together mean.
pub proof fn law_sequences_are_read_to_their_end(k: EscapeView, b: u8)
    requires
        k.bracket,
        k.sequence.len() < 15,
    ensures
        escape_step(k, Some(b)).0.sequence == k.sequence.push(b as char),
        final_byte(b) ==> escape_step(k, Some(b)).1 == Some(
            sequence_key(k.sequence.push(b as char)),
        ),
        !final_byte(b) ==> escape_step(k, Some(b)).1 is None,
{
    lemma_byte_size(k.sequence.push(b as char));
}

proof fn lemma_byte_size(s: Seq<char>)
    ensures
        s.len() <= byte_size(s) <= 2 * s.len(),
    decreases s.len(),
{
    if s.len() > 0 {
        lemma_byte_size(s.drop_last());
    }
}

/// While Pi works and nothing can be typed, Escape stops it, every other key
/// that begins with Escape scrolls, and all others do nothing.
pub proof fn law_keys_stop_or_scroll(key: u8, nav: Navigation)
    ensures
        key != 27 ==> key_action_of(key, nav) == KeyAction::Ignore,
        key == 27 && nav == Navigation::Escape ==> key_action_of(key, nav) == KeyAction::Stop,
        key == 27 && nav is EscapeWith ==> key_action_of(key, nav) == KeyAction::Stop,
        key == 27 && nav != Navigation::Escape && !(nav is EscapeWith) ==> key_action_of(key, nav)
            == KeyAction::Scroll(nav),
{
}

/// A single letter is an arrow, Home or End, and no other letter is a key.
pub proof fn law_letters_are_arrows(c: char)
    ensures
        sequence_key(seq![c]) == (if c == 'A' {
            Navigation::Up
        } else if c == 'B' {
            Navigation::Down
        } else if c == 'C' {
            Navigation::Right
        } else if c == 'D' {
            Navigation::Left
        } else if c == 'H' {
            Navigation::Home
        } else if c == 'F' {
            Navigation::End
        } else {
            Navigation::Other
        }),
{
    lemma_key_names();
    let s = seq![c];
    assert(s.len() == 1);
    assert(c == 'A' ==> s =~= "A"@);
    assert(c == 'B' ==> s =~= "B"@);
    assert(c == 'C' ==> s =~= "C"@);
    assert(c == 'D' ==> s =~= "D"@);
    assert(c == 'H' ==> s =~= "H"@);
    assert(c == 'F' ==> s =~= "F"@);
    assert(s[0] == c);
}

/// A digit and a tilde are a key of the block above the arrows.
pub proof fn law_digits_are_keys_of_the_block(c: char)
    ensures
        sequence_key(seq![c, '~']) == (if c == '1' {
            Navigation::Home
        } else if c == '3' {
            Navigation::Delete
        } else if c == '4' {
            Navigation::End
        } else if c == '5' {
            Navigation::ScrollPage(1)
        } else if c == '6' {
            Navigation::ScrollPage((-1) as i32)
        } else {
            Navigation::Other
        }),
{
    lemma_key_names();
    let s = seq![c, '~'];
    assert(s.len() == 2);
    assert(c == '1' ==> s =~= "1~"@);
    assert(c == '3' ==> s =~= "3~"@);
    assert(c == '4' ==> s =~= "4~"@);
    assert(c == '5' ==> s =~= "5~"@);
    assert(c == '6' ==> s =~= "6~"@);
    assert(s[0] == c);
}

/// Enter with Shift or Ctrl begins a line, and Enter with Alt waits for Pi, in
/// each form that terminals send.
pub proof fn law_modified_enter_is_read(modifier: char)
    ensures
        ({
            let wanted = if modifier == '2' || modifier == '5' {
                Navigation::Newline
            } else if modifier == '3' {
                Navigation::FollowUp
            } else {
                Navigation::Other
            };
            &&& sequence_key(seq!['1', '3', ';', modifier, 'u']) == wanted
            &&& sequence_key(seq!['1', '3', ';', modifier, '~']) == wanted
            &&& sequence_key(seq!['2', '7', ';', modifier, ';', '1', '3', '~']) == wanted
        }),
{
    lemma_key_names();
    reveal_strlit("118;3u");
    reveal_strlit("118;5u");
    reveal_strlit("27;3;118~");
    reveal_strlit("27;5;118~");
    reveal_strlit("118;3:1u");
    reveal_strlit("118;5:1u");
    reveal_strlit("118;3:2u");
    reveal_strlit("118;5:2u");
    assert("118;3:1u"@[0] == '1' && "118;5:1u"@[0] == '1' && "118;3:2u"@[0] == '1'
        && "118;5:2u"@[0] == '1');
    reveal_strlit("13;2u");
    reveal_strlit("27;2;13~");
    reveal_strlit("13;2~");
    reveal_strlit("13;5u");
    reveal_strlit("27;5;13~");
    reveal_strlit("13;5~");
    reveal_strlit("13;3u");
    reveal_strlit("27;3;13~");
    reveal_strlit("13;3~");
    let a = seq!['1', '3', ';', modifier, 'u'];
    let b = seq!['1', '3', ';', modifier, '~'];
    let d = seq!['2', '7', ';', modifier, ';', '1', '3', '~'];
    assert(a[3] == modifier && a[4] == 'u' && b[3] == modifier && b[4] == '~' && d[3] == modifier);
    assert("13;2u"@[3] == '2' && "13;5u"@[3] == '5' && "13;3u"@[3] == '3');
    assert("13;2~"@[3] == '2' && "13;5~"@[3] == '5' && "13;3~"@[3] == '3');
    assert("13;2u"@[4] == 'u' && "13;5u"@[4] == 'u' && "13;3u"@[4] == 'u');
    assert("13;2~"@[4] == '~' && "13;5~"@[4] == '~' && "13;3~"@[4] == '~');
    assert("27;2;13~"@[3] == '2' && "27;5;13~"@[3] == '5' && "27;3;13~"@[3] == '3');
    assert(modifier == '2' ==> a =~= "13;2u"@ && b =~= "13;2~"@ && d =~= "27;2;13~"@);
    assert(modifier == '5' ==> a =~= "13;5u"@ && b =~= "13;5~"@ && d =~= "27;5;13~"@);
    assert(modifier == '3' ==> a =~= "13;3u"@ && b =~= "13;3~"@ && d =~= "27;3;13~"@);
    reveal_strlit("<64;");
    reveal_strlit("<65;");
    assert(a[0] == '1' && b[0] == '1' && d[0] == '2');
    assert(!starts(a, "<64;"@)) by {
        if starts(a, "<64;"@) {
            assert(a.subrange(0, 4)[0] == '<');
        }
    }
    assert(!starts(a, "<65;"@)) by {
        if starts(a, "<65;"@) {
            assert(a.subrange(0, 4)[0] == '<');
        }
    }
    assert(!starts(b, "<64;"@)) by {
        if starts(b, "<64;"@) {
            assert(b.subrange(0, 4)[0] == '<');
        }
    }
    assert(!starts(b, "<65;"@)) by {
        if starts(b, "<65;"@) {
            assert(b.subrange(0, 4)[0] == '<');
        }
    }
    assert(!starts(d, "<64;"@)) by {
        if starts(d, "<64;"@) {
            assert(d.subrange(0, 4)[0] == '<');
        }
    }
    assert(!starts(d, "<65;"@)) by {
        if starts(d, "<65;"@) {
            assert(d.subrange(0, 4)[0] == '<');
        }
    }
}

proof fn lemma_key_names()
    ensures
        "A"@ =~= seq!['A'],
        "B"@ =~= seq!['B'],
        "C"@ =~= seq!['C'],
        "D"@ =~= seq!['D'],
        "H"@ =~= seq!['H'],
        "F"@ =~= seq!['F'],
        "1~"@ =~= seq!['1', '~'],
        "3~"@ =~= seq!['3', '~'],
        "4~"@ =~= seq!['4', '~'],
        "5~"@ =~= seq!['5', '~'],
        "6~"@ =~= seq!['6', '~'],
        "118;3u"@.len() == 6,
        "118;5u"@.len() == 6,
        "27;3;118~"@.len() == 9,
        "27;5;118~"@.len() == 9,
        "118;3:1u"@.len() == 8,
        "118;5:1u"@.len() == 8,
        "118;3:2u"@.len() == 8,
        "118;5:2u"@.len() == 8,
        "13;2u"@.len() == 5,
        "27;2;13~"@.len() == 8,
        "13;2~"@.len() == 5,
        "13;5u"@.len() == 5,
        "27;5;13~"@.len() == 8,
        "13;5~"@.len() == 5,
        "13;3u"@.len() == 5,
        "27;3;13~"@.len() == 8,
        "13;3~"@.len() == 5,
        "<64;"@.len() == 4,
        "<65;"@.len() == 4,
{
    reveal_strlit("A");
    reveal_strlit("B");
    reveal_strlit("C");
    reveal_strlit("D");
    reveal_strlit("H");
    reveal_strlit("F");
    reveal_strlit("1~");
    reveal_strlit("3~");
    reveal_strlit("4~");
    reveal_strlit("5~");
    reveal_strlit("6~");
    reveal_strlit("118;3u");
    reveal_strlit("118;5u");
    reveal_strlit("27;3;118~");
    reveal_strlit("27;5;118~");
    reveal_strlit("118;3:1u");
    reveal_strlit("118;5:1u");
    reveal_strlit("118;3:2u");
    reveal_strlit("118;5:2u");
    reveal_strlit("13;2u");
    reveal_strlit("27;2;13~");
    reveal_strlit("13;2~");
    reveal_strlit("13;5u");
    reveal_strlit("27;5;13~");
    reveal_strlit("13;5~");
    reveal_strlit("13;3u");
    reveal_strlit("27;3;13~");
    reveal_strlit("13;3~");
    reveal_strlit("<64;");
    reveal_strlit("<65;");
}

}
