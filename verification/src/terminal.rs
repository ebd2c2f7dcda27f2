//! A line typed into a raw terminal.
use crate::text::{copy, extend_text, text_of};
use crate::utf8::{law_characters_arrive_whole, push_byte, pushed};
use vstd::prelude::*;
use vstd::utf8::encode_utf8;

verus! {

/// The line that is being typed, and the bytes of an unfinished character.
pub struct LineEditor {
    pub line: Vec<char>,
    pub pending: Vec<u8>,
}

/// What a [`LineEditor`] holds.
#[verifier::ext_equal]
pub struct LineView {
    pub line: Seq<char>,
    pub pending: Seq<u8>,
}

impl View for LineEditor {
    type V = LineView;

    open spec fn view(&self) -> LineView {
        LineView { line: self.line@, pending: self.pending@ }
    }
}

/// What a key does to a line.
pub enum LineStep {
    /// The line goes on; what the terminal shows.
    Echo(String),
    /// The line is complete.
    Line(String),
    /// The line was given up.
    Cancelled,
}

/// What a [`LineStep`] says.
pub enum LineStepView {
    Echo(Seq<char>),
    Line(Seq<char>),
    Cancelled,
}

impl View for LineStep {
    type V = LineStepView;

    open spec fn view(&self) -> LineStepView {
        match *self {
            LineStep::Echo(text) => LineStepView::Echo(text@),
            LineStep::Line(text) => LineStepView::Line(text@),
            LineStep::Cancelled => LineStepView::Cancelled,
        }
    }
}

/// Enter ends a line, Ctrl+C and Ctrl+D give it up, Backspace removes its last
/// character, and every other key but Escape and controls is typed.
pub open spec fn line_step(l: LineView, byte: u8) -> (LineView, LineStepView) {
    if byte == 13 || byte == 10 {
        (l, LineStepView::Line(l.line))
    } else if byte == 3 || byte == 4 {
        (l, LineStepView::Cancelled)
    } else if byte == 8 || byte == 127 {
        if l.line.len() == 0 {
            (LineView { pending: Seq::empty(), ..l }, LineStepView::Echo(Seq::empty()))
        } else {
            (
                LineView { line: l.line.drop_last(), pending: Seq::empty() },
                LineStepView::Echo("\x08 \x08"@),
            )
        }
    } else if byte >= 32 {
        let (pending, text) = pushed(l.pending, byte);
        (LineView { line: l.line + text, pending }, LineStepView::Echo(text))
    } else {
        (l, LineStepView::Echo(Seq::empty()))
    }
}

fn nothing() -> (out: String)
    ensures
        out@ == Seq::<char>::empty(),
{
    let out = String::new();
    assert(out@ =~= Seq::empty());
    out
}

impl LineEditor {
    pub fn new() -> (r: Self)
        ensures
            r@ == (LineView { line: Seq::empty(), pending: Seq::empty() }),
    {
        let r = LineEditor { line: Vec::new(), pending: Vec::new() };
        assert(r@ =~= (LineView { line: Seq::empty(), pending: Seq::empty() }));
        r
    }

    pub fn key(&mut self, byte: u8) -> (r: LineStep)
        ensures
            (final(self)@, r@) == line_step(old(self)@, byte),
    {
        if byte == 13 || byte == 10 {
            return LineStep::Line(text_of(self.line.as_slice()));
        }
        if byte == 3 || byte == 4 {
            return LineStep::Cancelled;
        }
        if byte == 8 || byte == 127 {
            self.pending.clear();
            let out = match self.line.pop() {
                Some(_) => copy("\x08 \x08"),
                None => nothing(),
            };
            assert(self@ =~= line_step(old(self)@, byte).0);
            return LineStep::Echo(out);
        }
        if byte >= 32 {
            let text = push_byte(&mut self.pending, byte);
            extend_text(&mut self.line, text.as_str());
            assert(self@ =~= line_step(old(self)@, byte).0);
            return LineStep::Echo(text);
        }
        LineStep::Echo(nothing())
    }
}

/// A line is what was typed up to Enter; Backspace takes its last character
/// away.
pub proof fn law_lines_are_what_was_typed(l: LineView, byte: u8)
    ensures
        byte == 13 || byte == 10 ==> line_step(l, byte).1 == LineStepView::Line(l.line),
        byte == 3 || byte == 4 ==> line_step(l, byte).1 is Cancelled,
        byte == 127 && l.line.len() > 0 ==> line_step(l, byte).0.line == l.line.take(
            l.line.len() - 1,
        ),
        byte == 127 && l.line.len() == 0 ==> line_step(l, byte).0.line == l.line,
        byte < 32 && byte != 8 ==> line_step(l, byte).0.line == l.line,
{
    if l.line.len() > 0 {
        assert(l.line.drop_last() =~= l.line.take(l.line.len() - 1));
    }
}

/// A character that is typed is added to the line once its last byte has come.
pub proof fn law_characters_are_added(l: LineView, c: char, k: int)
    requires
        0 <= k < encode_utf8(seq![c]).len(),
        l.pending == encode_utf8(seq![c]).take(k),
        encode_utf8(seq![c])[k] >= 32,
        encode_utf8(seq![c])[k] != 127,
    ensures
        ({
            let bytes = encode_utf8(seq![c]);
            let after = line_step(l, bytes[k]).0;
            &&& k + 1 == bytes.len() ==> after.line == l.line.push(c) && after.pending.len() == 0
            &&& k + 1 < bytes.len() ==> after.line == l.line && after.pending == bytes.take(k + 1)
        }),
{
    law_characters_arrive_whole(c, k);
    assert(l.line + seq![c] =~= l.line.push(c));
    assert(l.line + Seq::<char>::empty() =~= l.line);
}

}
