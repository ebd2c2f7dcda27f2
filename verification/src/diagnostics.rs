//! What Pi writes to its standard error: no record, and never to be written
//! over the screen. A bounded, sanitized summary of the latest is kept.
use crate::error::{safe_message, safe_text};
use crate::lines::{join, join_texts, lemma_texts_push, texts};
use crate::number::{decimal, decimal_text};
use crate::text::{cat2, cat3, cat4, chars_of, copy, same, starts, trim, trimmed};
use crate::utf8::{lossy, lossy_text};
use vstd::prelude::*;

verus! {

/// How many bytes of a line are kept.
pub const MAX_LINE: usize = 4096;

/// How many messages are kept.
pub const MAX_RECENT: usize = 4;

/// The latest messages, and how often each was repeated.
pub struct Diagnostics {
    pub recent: Vec<(String, u64)>,
    pub earlier: u64,
    pub revision: u64,
}

/// What a [`Diagnostics`] holds.
#[verifier::ext_equal]
pub struct DiagnosticsView {
    pub recent: Seq<(Seq<char>, u64)>,
    pub earlier: u64,
    pub revision: u64,
}

pub open spec fn recent_view(recent: Seq<(String, u64)>) -> Seq<(Seq<char>, u64)> {
    Seq::new(recent.len(), |i: int| (recent[i].0@, recent[i].1))
}

impl View for Diagnostics {
    type V = DiagnosticsView;

    open spec fn view(&self) -> DiagnosticsView {
        DiagnosticsView {
            recent: recent_view(self.recent@),
            earlier: self.earlier,
            revision: self.revision,
        }
    }
}

/// The place of a message from `i` on.
pub open spec fn message_from(recent: Seq<(Seq<char>, u64)>, text: Seq<char>, i: int) -> Option<int>
    decreases recent.len() - i,
{
    if i < 0 || i >= recent.len() {
        None
    } else if recent[i].0 == text {
        Some(i)
    } else {
        message_from(recent, text, i + 1)
    }
}

pub open spec fn more(n: u64) -> u64 {
    if n < u64::MAX {
        (n + 1) as u64
    } else {
        n
    }
}

pub open spec fn next_revision(n: u64) -> u64 {
    if n < u64::MAX {
        (n + 1) as u64
    } else {
        0
    }
}

/// The message of a line.
pub open spec fn message_of(line: Seq<u8>, truncated: bool) -> Seq<char> {
    safe_text(lossy(line)) + (if truncated {
        " … [truncated]"@
    } else {
        ""@
    })
}

/// A message with the number of its repetitions.
pub open spec fn counted(message: (Seq<char>, u64)) -> Seq<char> {
    if message.1 > 1 {
        message.0 + " (×"@ + decimal(message.1 as nat) + ")"@
    } else {
        message.0
    }
}

/// The last `n` messages, the newest first.
pub open spec fn newest_first(recent: Seq<(Seq<char>, u64)>, n: nat) -> Seq<Seq<char>> {
    Seq::new(n, |i: int| counted(recent[recent.len() - 1 - i]))
}

impl DiagnosticsView {
    pub open spec fn fresh() -> DiagnosticsView {
        DiagnosticsView { recent: Seq::empty(), earlier: 0, revision: 0 }
    }

    /// No message is kept twice, and no more than fit.
    pub open spec fn wf(self) -> bool {
        &&& self.recent.len() <= MAX_RECENT
        &&& forall|i: int, j: int|
            0 <= i < j < self.recent.len() ==> #[trigger] self.recent[i].0
                != #[trigger] self.recent[j].0
    }

    /// A message is noted: it is the latest one, counted with those before.
    pub open spec fn noted(self, text: Seq<char>) -> DiagnosticsView {
        let (rest, repeats) = match message_from(self.recent, text, 0) {
            Some(i) => (self.recent.remove(i), more(self.recent[i].1)),
            None => (self.recent, 1),
        };
        DiagnosticsView {
            recent: (if rest.len() == MAX_RECENT {
                rest.remove(0)
            } else {
                rest
            }).push((text, repeats)),
            earlier: if rest.len() == MAX_RECENT {
                more(self.earlier)
            } else {
                self.earlier
            },
            revision: next_revision(self.revision),
        }
    }

    pub open spec fn recorded(self, line: Seq<u8>, truncated: bool) -> DiagnosticsView {
        if trim(lossy(line)).len() == 0 && !truncated {
            self
        } else {
            self.noted(message_of(line, truncated))
        }
    }

    pub open spec fn summary(self) -> Seq<char> {
        if self.recent.len() == 0 {
            ""@
        } else {
            "Pi: "@ + join(newest_first(self.recent, self.recent.len()), " · "@) + (if self.earlier
                > 0 {
                " · "@ + decimal(self.earlier as nat) + " earlier omitted"@
            } else {
                ""@
            })
        }
    }
}

/// Where a reader of terminal output is.
#[derive(Clone, Copy, Debug, PartialEq, Eq, Structural)]
pub enum Escape {
    Text,
    Start,
    Csi,
    Payload,
    PayloadEnd,
}

/// The line that is being read.
pub struct Lines {
    pub text: Vec<u8>,
    pub truncated: bool,
    pub escape: Escape,
}

/// What a [`Lines`] holds.
#[verifier::ext_equal]
pub struct LinesView {
    pub text: Seq<u8>,
    pub truncated: bool,
    pub escape: Escape,
}

impl View for Lines {
    type V = LinesView;

    open spec fn view(&self) -> LinesView {
        LinesView { text: self.text@, truncated: self.truncated, escape: self.escape }
    }
}

/// Where the reader is after a byte of an escape sequence.
pub open spec fn escaped(escape: Escape, byte: u8) -> Escape {
    match escape {
        Escape::Text => if byte == 27 {
            Escape::Start
        } else {
            Escape::Text
        },
        Escape::Start => if byte == 0x5b {
            Escape::Csi
        } else if byte == 0x5d || byte == 0x50 || byte == 0x58 || byte == 0x5e || byte == 0x5f {
            Escape::Payload
        } else {
            Escape::Text
        },
        Escape::Csi => if 0x40 <= byte <= 0x7e {
            Escape::Text
        } else {
            Escape::Csi
        },
        Escape::Payload => if byte == 7 {
            Escape::Text
        } else if byte == 27 {
            Escape::PayloadEnd
        } else {
            Escape::Payload
        },
        Escape::PayloadEnd => if byte == 0x5c || byte == 7 {
            Escape::Text
        } else {
            Escape::Payload
        },
    }
}

impl LinesView {
    pub open spec fn fresh() -> LinesView {
        LinesView { text: Seq::empty(), truncated: false, escape: Escape::Text }
    }

    /// The line is over.
    pub open spec fn finished(self, d: DiagnosticsView) -> (LinesView, DiagnosticsView) {
        (
            LinesView { text: Seq::empty(), truncated: false, ..self },
            d.recorded(self.text, self.truncated),
        )
    }

    /// One more byte.
    pub open spec fn fed(self, byte: u8, d: DiagnosticsView) -> (LinesView, DiagnosticsView) {
        if self.escape != Escape::Text || byte == 27 {
            (LinesView { escape: escaped(self.escape, byte), ..self }, d)
        } else if byte == 10 || byte == 13 {
            self.finished(d)
        } else if byte >= 32 || byte == 9 {
            if self.text.len() < MAX_LINE {
                (LinesView { text: self.text.push(byte), ..self }, d)
            } else {
                (LinesView { truncated: true, ..self }, d)
            }
        } else {
            (self, d)
        }
    }

    /// More bytes, one after the other.
    pub open spec fn fed_all(self, bytes: Seq<u8>, d: DiagnosticsView) -> (
        LinesView,
        DiagnosticsView,
    )
        decreases bytes.len(),
    {
        if bytes.len() == 0 {
            (self, d)
        } else {
            let (lines, after) = self.fed_all(bytes.drop_last(), d);
            lines.fed(bytes.last(), after)
        }
    }
}

impl Default for Diagnostics {
    fn default() -> (r: Self)
        ensures
            r@ == DiagnosticsView::fresh(),
            r@.wf(),
    {
        let r = Diagnostics { recent: Vec::new(), earlier: 0, revision: 0 };
        assert(r@.recent =~= Seq::empty());
        r
    }
}

impl Diagnostics {
    pub fn revision(&self) -> (r: u64)
        ensures
            r == self@.revision,
    {
        self.revision
    }

    fn find(&self, text: &str) -> (r: Option<usize>)
        ensures
            match r {
                Some(i) => i < self.recent@.len() && message_from(self@.recent, text@, 0) == Some(
                    i as int,
                ),
                None => message_from(self@.recent, text@, 0) is None,
            },
    {
        let mut i: usize = 0;
        while i < self.recent.len()
            invariant
                i <= self.recent@.len(),
                message_from(self@.recent, text@, 0) == message_from(
                    self@.recent,
                    text@,
                    i as int,
                ),
            decreases self.recent@.len() - i,
        {
            if same(self.recent[i].0.as_str(), text) {
                return Some(i);
            }
            i = i + 1;
        }
        None
    }

    fn note(&mut self, text: String)
        requires
            old(self)@.wf(),
        ensures
            final(self)@ == old(self)@.noted(text@),
            final(self)@.wf(),
    {
        let ghost start = self@;
        let ghost line = text@;
        let repeats: u64 = match self.find(text.as_str()) {
            Some(i) => {
                let (_, n) = self.recent.remove(i);
                assert(self@.recent =~= start.recent.remove(i as int));
                if n < u64::MAX {
                    n + 1
                } else {
                    n
                }
            },
            None => 1,
        };
        let ghost rest = self@.recent;
        if self.recent.len() == MAX_RECENT {
            let _ = self.recent.remove(0);
            assert(self@.recent =~= rest.remove(0));
            self.earlier = if self.earlier < u64::MAX {
                self.earlier + 1
            } else {
                self.earlier
            };
        }
        let ghost kept = self@.recent;
        self.recent.push((text, repeats));
        assert(self@.recent =~= kept.push((line, repeats)));
        self.revision = if self.revision < u64::MAX {
            self.revision + 1
        } else {
            0
        };
        assert(self@ =~= start.noted(line));
        proof {
            lemma_noted(start, line);
        }
    }

    /// A line was written.
    pub fn record(&mut self, line: &[u8], truncated: bool)
        requires
            old(self)@.wf(),
        ensures
            final(self)@ == old(self)@.recorded(line@, truncated),
            final(self)@.wf(),
    {
        let raw = lossy_text(line);
        let chars = chars_of(raw.as_str());
        if trimmed(chars.as_slice()).len() == 0 && !truncated {
            return;
        }
        let safe = safe_message(raw.as_str());
        let text = if truncated {
            cat2(safe.as_str(), " … [truncated]")
        } else {
            cat2(safe.as_str(), "")
        };
        self.note(text);
    }

    /// The revision, and the summary of the latest messages, the newest first.
    pub fn snapshot(&self) -> (r: (u64, String))
        ensures
            r.0 == self@.revision,
            r.1@ == self@.summary(),
    {
        let n: usize = self.recent.len();
        if n == 0 {
            return (self.revision, copy(""));
        }
        let ghost want = newest_first(self@.recent, n as nat);
        let mut parts: Vec<String> = Vec::new();
        let mut i: usize = 0;
        assert(texts(parts@) =~= want.take(0));
        while i < n
            invariant
                i <= n,
                n == self.recent@.len(),
                want == newest_first(self@.recent, n as nat),
                texts(parts@) == want.take(i as int),
            decreases n - i,
        {
            let message = &self.recent[n - 1 - i];
            assert(self@.recent[n - 1 - i] == (message.0@, message.1));
            let part = if message.1 > 1 {
                cat4(message.0.as_str(), " (×", decimal_text(message.1).as_str(), ")")
            } else {
                copy(message.0.as_str())
            };
            proof {
                lemma_texts_push(parts@, part);
                assert(want.take(i + 1) =~= want.take(i as int).push(want[i as int]));
            }
            parts.push(part);
            i = i + 1;
        }
        assert(want.take(i as int) =~= want);
        let messages = join_texts(&parts, " · ");
        let older = if self.earlier > 0 {
            cat3(" · ", decimal_text(self.earlier).as_str(), " earlier omitted")
        } else {
            copy("")
        };
        (self.revision, cat3("Pi: ", messages.as_str(), older.as_str()))
    }
}

impl Default for Lines {
    fn default() -> (r: Self)
        ensures
            r@ == LinesView::fresh(),
    {
        let r = Lines { text: Vec::new(), truncated: false, escape: Escape::Text };
        assert(r@.text =~= Seq::empty());
        r
    }
}

fn step(escape: Escape, byte: u8) -> (r: Escape)
    ensures
        r == escaped(escape, byte),
{
    match escape {
        Escape::Text => if byte == 27 {
            Escape::Start
        } else {
            Escape::Text
        },
        Escape::Start => if byte == 0x5b {
            Escape::Csi
        } else if byte == 0x5d || byte == 0x50 || byte == 0x58 || byte == 0x5e || byte == 0x5f {
            Escape::Payload
        } else {
            Escape::Text
        },
        Escape::Csi => if 0x40 <= byte && byte <= 0x7e {
            Escape::Text
        } else {
            Escape::Csi
        },
        Escape::Payload => if byte == 7 {
            Escape::Text
        } else if byte == 27 {
            Escape::PayloadEnd
        } else {
            Escape::Payload
        },
        Escape::PayloadEnd => if byte == 0x5c || byte == 7 {
            Escape::Text
        } else {
            Escape::Payload
        },
    }
}

impl Lines {
    /// The line is over.
    pub fn finish(&mut self, target: &mut Diagnostics)
        requires
            old(target)@.wf(),
        ensures
            (final(self)@, final(target)@) == old(self)@.finished(old(target)@),
            final(target)@.wf(),
    {
        target.record(self.text.as_slice(), self.truncated);
        self.text.clear();
        self.truncated = false;
        assert(self@ =~= old(self)@.finished(old(target)@).0);
    }

    /// One more byte.
    pub fn byte(&mut self, byte: u8, target: &mut Diagnostics)
        requires
            old(target)@.wf(),
        ensures
            (final(self)@, final(target)@) == old(self)@.fed(byte, old(target)@),
            final(target)@.wf(),
    {
        let ghost start = self@;
        let ghost d = target@;
        if self.escape != Escape::Text || byte == 27 {
            self.escape = step(self.escape, byte);
        } else if byte == 10 || byte == 13 {
            self.finish(target);
        } else if byte >= 32 || byte == 9 {
            if self.text.len() < MAX_LINE {
                self.text.push(byte);
            } else {
                self.truncated = true;
            }
        }
        assert(self@ =~= start.fed(byte, d).0);
    }

    /// More bytes, one after the other.
    pub fn feed(&mut self, bytes: &[u8], target: &mut Diagnostics)
        requires
            old(target)@.wf(),
        ensures
            (final(self)@, final(target)@) == old(self)@.fed_all(bytes@, old(target)@),
            final(target)@.wf(),
    {
        let ghost start = self@;
        let ghost d = target@;
        let n: usize = bytes.len();
        let mut i: usize = 0;
        assert(bytes@.take(0) =~= Seq::empty());
        while i < n
            invariant
                i <= n,
                n == bytes@.len(),
                target@.wf(),
                (self@, target@) == start.fed_all(bytes@.take(i as int), d),
            decreases n - i,
        {
            self.byte(bytes[i], target);
            i = i + 1;
            assert(bytes@.take(i as int).drop_last() =~= bytes@.take(i - 1));
            assert(bytes@.take(i as int).last() == bytes@[i - 1]);
        }
        assert(bytes@.take(n as int) =~= bytes@);
    }
}

// ---------------------------------------------------------------------------
// Laws
// ---------------------------------------------------------------------------

proof fn lemma_message_from(recent: Seq<(Seq<char>, u64)>, text: Seq<char>, i: int)
    requires
        0 <= i <= recent.len(),
    ensures
        match message_from(recent, text, i) {
            Some(k) => i <= k < recent.len() && recent[k].0 == text,
            None => forall|j: int| i <= j < recent.len() ==> (#[trigger] recent[j]).0 != text,
        },
    decreases recent.len() - i,
{
    if i < recent.len() && recent[i].0 != text {
        lemma_message_from(recent, text, i + 1);
    }
}

proof fn lemma_noted(d: DiagnosticsView, text: Seq<char>)
    requires
        d.wf(),
    ensures
        d.noted(text).wf(),
{
    lemma_message_from(d.recent, text, 0);
    let rest = match message_from(d.recent, text, 0) {
        Some(k) => d.recent.remove(k),
        None => d.recent,
    };
    match message_from(d.recent, text, 0) {
        Some(k) => {
            assert forall|j: int| 0 <= j < rest.len() implies (#[trigger] rest[j]).0 != text by {
                if j < k {
                    assert(rest[j] == d.recent[j]);
                } else {
                    assert(rest[j] == d.recent[j + 1]);
                }
            }
            assert forall|i: int, j: int| 0 <= i < j < rest.len() implies #[trigger] rest[i].0
                != #[trigger] rest[j].0 by {
                let a = if i < k {
                    i
                } else {
                    i + 1
                };
                let b = if j < k {
                    j
                } else {
                    j + 1
                };
                assert(rest[i] == d.recent[a] && rest[j] == d.recent[b]);
            }
        },
        None => {},
    }
    let kept = if rest.len() == MAX_RECENT {
        rest.remove(0)
    } else {
        rest
    };
    assert forall|i: int, j: int| 0 <= i < j < d.noted(text).recent.len() implies #[trigger] d.noted(
        text,
    ).recent[i].0 != #[trigger] d.noted(text).recent[j].0 by {
        let shift = if rest.len() == MAX_RECENT {
            1int
        } else {
            0
        };
        assert(kept[i] == rest[i + shift]);
        if j < kept.len() {
            assert(kept[j] == rest[j + shift]);
        }
    }
}

/// However much is written, a few messages are kept, none of them twice, and
/// a line is bounded.
pub proof fn law_diagnostics_are_bounded(l: LinesView, bytes: Seq<u8>, d: DiagnosticsView)
    requires
        d.wf(),
        l.text.len() <= MAX_LINE,
    ensures
        l.fed_all(bytes, d).1.wf(),
        l.fed_all(bytes, d).0.text.len() <= MAX_LINE,
    decreases bytes.len(),
{
    if bytes.len() > 0 {
        law_diagnostics_are_bounded(l, bytes.drop_last(), d);
        let (lines, after) = l.fed_all(bytes.drop_last(), d);
        if lines.escape == Escape::Text && (bytes.last() == 10 || bytes.last() == 13) && !(trim(
            lossy(lines.text),
        ).len() == 0 && !lines.truncated) {
            lemma_noted(after, message_of(lines.text, lines.truncated));
        }
    }
}

/// What stands within an escape sequence is never part of a line.
pub proof fn law_escape_sequences_are_dropped(l: LinesView, byte: u8, d: DiagnosticsView)
    requires
        l.escape != Escape::Text,
    ensures
        l.fed(byte, d).0.text == l.text,
        l.fed(byte, d).1 == d,
{
}

/// No byte of a line is a control character, but for tabs.
pub proof fn law_lines_hold_no_controls(l: LinesView, byte: u8, d: DiagnosticsView)
    requires
        forall|i: int| 0 <= i < l.text.len() ==> (#[trigger] l.text[i] >= 32 || l.text[i] == 9),
    ensures
        forall|i: int|
            0 <= i < l.fed(byte, d).0.text.len() ==> (#[trigger] l.fed(byte, d).0.text[i] >= 32
                || l.fed(byte, d).0.text[i] == 9),
{
}

/// A repeated message is counted, not kept again.
pub proof fn law_repetitions_are_counted(d: DiagnosticsView, text: Seq<char>)
    requires
        d.wf(),
        message_from(d.recent, text, 0) is Some,
    ensures
        d.noted(text).recent.len() == d.recent.len(),
        d.noted(text).recent.last() == (text, more(
            d.recent[message_from(d.recent, text, 0)->0].1,
        )),
        d.noted(text).earlier == d.earlier,
{
    lemma_message_from(d.recent, text, 0);
}

/// A new message is the latest one, counted once; the others stay, but for
/// the oldest where there are four already, which is counted as omitted.
pub proof fn law_new_messages_are_kept(d: DiagnosticsView, text: Seq<char>)
    requires
        d.wf(),
        forall|k: int| 0 <= k < d.recent.len() ==> (#[trigger] d.recent[k]).0 != text,
        d.earlier < u64::MAX,
        d.revision < u64::MAX,
    ensures
        d.recent.len() < 4 ==> d.noted(text).recent == d.recent.push((text, 1u64)) && d.noted(
            text,
        ).earlier == d.earlier,
        d.recent.len() == 4 ==> d.noted(text).recent == d.recent.skip(1).push((text, 1u64))
            && d.noted(text).earlier == d.earlier + 1,
        d.noted(text).revision == d.revision + 1,
{
    lemma_message_from(d.recent, text, 0);
    if d.recent.len() == 4 {
        assert(d.recent.remove(0) =~= d.recent.skip(1));
    }
}

/// A message that is there already becomes the latest one, counted once more.
pub proof fn law_repeated_messages_come_to_the_end(d: DiagnosticsView, k: int)
    requires
        d.wf(),
        0 <= k < d.recent.len(),
        d.recent[k].1 < u64::MAX,
    ensures
        d.noted(d.recent[k].0).recent == d.recent.remove(k).push(
            (d.recent[k].0, (d.recent[k].1 + 1) as u64),
        ),
{
    lemma_message_from(d.recent, d.recent[k].0, 0);
    let i = message_from(d.recent, d.recent[k].0, 0)->0;
    if i < k {
        assert(d.recent[i].0 != d.recent[k].0);
    } else if k < i {
        assert(d.recent[k].0 != d.recent[i].0);
    }
}

/// The bytes of a line are collected as they come, and recorded when it ends.
pub proof fn law_lines_are_recorded(l: LinesView, byte: u8, d: DiagnosticsView)
    requires
        l.escape == Escape::Text,
    ensures
        byte >= 32 && l.text.len() < 4096 ==> l.fed(byte, d).0.text == l.text.push(byte) && l.fed(
            byte,
            d,
        ).1 == d,
        byte == 10 || byte == 13 ==> l.fed(byte, d).1 == d.recorded(l.text, l.truncated) && l.fed(
            byte,
            d,
        ).0.text.len() == 0,
        byte >= 32 && l.text.len() >= 4096 ==> l.fed(byte, d).0.truncated,
{
}

/// A line that says something is a message, and one that is blank is none.
pub proof fn law_blank_lines_are_no_messages(d: DiagnosticsView, line: Seq<u8>)
    ensures
        trim(lossy(line)).len() > 0 ==> d.recorded(line, false) == d.noted(
            safe_text(lossy(line)) + ""@,
        ),
        trim(lossy(line)).len() == 0 ==> d.recorded(line, false) == d,
{
}

/// The summary begins with the latest message.
pub proof fn law_the_latest_message_comes_first(d: DiagnosticsView)
    requires
        d.recent.len() > 0,
    ensures
        starts(d.summary(), "Pi: "@ + counted(d.recent.last())),
{
    let all = newest_first(d.recent, d.recent.len());
    assert(all[0] == counted(d.recent.last()));
    lemma_join_starts(all);
    let head = "Pi: "@ + all[0];
    let inner = join(all, " · "@);
    assert(inner.subrange(0, all[0].len() as int) == all[0]);
    assert(d.summary().subrange(0, head.len() as int) =~= head) by {
        assert forall|i: int| 0 <= i < head.len() implies d.summary()[i] == head[i] by {
            if i >= "Pi: "@.len() {
                let j = i - "Pi: "@.len();
                assert(inner.subrange(0, all[0].len() as int)[j] == inner[j]);
                assert(d.summary()[i] == inner[j]);
            }
        }
    }
}

proof fn lemma_join_starts(parts: Seq<Seq<char>>)
    requires
        parts.len() > 0,
    ensures
        starts(join(parts, " · "@), parts[0]),
    decreases parts.len(),
{
    let all = join(parts, " · "@);
    if parts.len() == 1 {
        assert(all.subrange(0, parts[0].len() as int) =~= parts[0]);
    } else {
        let front = parts.drop_last();
        lemma_join_starts(front);
        let before = join(front, " · "@);
        assert(before.subrange(0, parts[0].len() as int) == parts[0]);
        assert(all.subrange(0, parts[0].len() as int) =~= before.subrange(
            0,
            parts[0].len() as int,
        ));
    }
}

proof fn lemma_fed_push(l: LinesView, bytes: Seq<u8>, byte: u8, d: DiagnosticsView)
    ensures
        l.fed_all(bytes.push(byte), d) == l.fed_all(bytes, d).0.fed(
            byte,
            l.fed_all(bytes, d).1,
        ),
{
    assert(bytes.push(byte).drop_last() =~= bytes);
}

proof fn lemma_in_sequence(l: LinesView, kind: u8, p: Seq<u8>, d: DiagnosticsView)
    requires
        l.escape == Escape::Text,
        kind == 0x5b || kind == 0x5d,
        forall|i: int| 0 <= i < p.len() ==> if kind == 0x5b {
            !(0x40 <= #[trigger] p[i] <= 0x7e)
        } else {
            p[i] != 7 && p[i] != 27
        },
    ensures
        l.fed_all(seq![27u8, kind] + p, d) == (
            LinesView {
                escape: if kind == 0x5b {
                    Escape::Csi
                } else {
                    Escape::Payload
                },
                ..l
            },
            d,
        ),
    decreases p.len(),
{
    if p.len() == 0 {
        let none = Seq::<u8>::empty();
        lemma_fed_push(l, none, 27, d);
        lemma_fed_push(l, none.push(27u8), kind, d);
        assert(l.fed_all(none, d) == (l, d));
        assert(none.push(27u8).push(kind) =~= seq![27u8, kind] + p);
    } else {
        let front = p.drop_last();
        assert forall|i: int| 0 <= i < front.len() implies if kind == 0x5b {
            !(0x40 <= #[trigger] front[i] <= 0x7e)
        } else {
            front[i] != 7 && front[i] != 27
        } by {
            assert(front[i] == p[i]);
        }
        lemma_in_sequence(l, kind, front, d);
        lemma_fed_push(l, seq![27u8, kind] + front, p.last(), d);
        assert((seq![27u8, kind] + front).push(p.last()) =~= seq![27u8, kind] + p);
        assert(p[p.len() - 1] == p.last());
    }
}

/// A control sequence is passed over up to its final byte, and the title of a
/// window up to the bell: the line goes on as if they were not there.
pub proof fn law_sequences_are_passed_over(l: LinesView, p: Seq<u8>, last: u8, d: DiagnosticsView)
    requires
        l.escape == Escape::Text,
    ensures
        0x40 <= last <= 0x7e && (forall|i: int|
            0 <= i < p.len() ==> !(0x40 <= #[trigger] p[i] <= 0x7e)) ==> l.fed_all(
            (seq![27u8, 0x5b] + p).push(last),
            d,
        ) == (l, d),
        (forall|i: int| 0 <= i < p.len() ==> #[trigger] p[i] != 7 && p[i] != 27) ==> l.fed_all(
            (seq![27u8, 0x5d] + p).push(7),
            d,
        ) == (l, d),
{
    if 0x40 <= last <= 0x7e && (forall|i: int|
        0 <= i < p.len() ==> !(0x40 <= #[trigger] p[i] <= 0x7e)) {
        lemma_in_sequence(l, 0x5b, p, d);
        lemma_fed_push(l, seq![27u8, 0x5b] + p, last, d);
    }
    if forall|i: int| 0 <= i < p.len() ==> #[trigger] p[i] != 7 && p[i] != 27 {
        assert forall|i: int| 0 <= i < p.len() implies if 0x5du8 == 0x5b {
            !(0x40 <= #[trigger] p[i] <= 0x7e)
        } else {
            p[i] != 7 && p[i] != 27
        } by {
            assert(p[i] != 7);
        }
        lemma_in_sequence(l, 0x5d, p, d);
        lemma_fed_push(l, seq![27u8, 0x5d] + p, 7, d);
    }
}

}
