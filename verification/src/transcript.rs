//! The conversation as it is shown: what was written, the activity within
//! it, and how far it is scrolled.
use crate::activity::{timeline_text, Timeline, TimelineView};
use crate::display::{strip_ansi, strip_ansi_of};
use crate::lines::{replace, replaced};
use crate::markdown::{formatted, row_views, Row, RowView};
use crate::number::{decimal, decimal_text};
use crate::text::{cat3, chars_of, starts, text_of};
use crate::utf8::{lossy, lossy_text};
use vstd::prelude::*;
use vstd::slice::slice_subrange;
use vstd::utf8::encode_utf8;

verus! {

/// How many bytes of a conversation are kept.
pub const MAX_TRANSCRIPT: usize = 262_144;

pub struct Transcript {
    pub bytes: Vec<u8>,
    pub timelines: Vec<Timeline>,
    /// The timeline of the work that goes on.
    pub current: Option<usize>,
    /// Whether that timeline has its place among the bytes.
    pub marked: bool,
    pub rows: Vec<Row>,
    pub width: usize,
    /// Whether the rows are out of date.
    pub dirty: bool,
    /// How many rows there were when the view was scrolled and text arrived.
    pub anchor: Option<usize>,
    /// How many rows below the visible ones.
    pub scroll: usize,
}

/// What a [`Transcript`] holds.
#[verifier::ext_equal]
pub struct TranscriptView {
    pub bytes: Seq<u8>,
    pub timelines: Seq<TimelineView>,
    pub current: Option<usize>,
    pub marked: bool,
    pub rows: Seq<RowView>,
    pub width: usize,
    pub dirty: bool,
    pub anchor: Option<usize>,
    pub scroll: usize,
}

pub open spec fn timeline_views(timelines: Seq<Timeline>) -> Seq<TimelineView> {
    Seq::new(timelines.len(), |i: int| timelines[i]@)
}

impl View for Transcript {
    type V = TranscriptView;

    open spec fn view(&self) -> TranscriptView {
        TranscriptView {
            bytes: self.bytes@,
            timelines: timeline_views(self.timelines@),
            current: self.current,
            marked: self.marked,
            rows: row_views(self.rows@),
            width: self.width,
            dirty: self.dirty,
            anchor: self.anchor,
            scroll: self.scroll,
        }
    }
}

/// What holds the place of the timeline `i`.
pub open spec fn mark_of(i: nat) -> Seq<char> {
    "· __hibiscus_activity_"@ + decimal(i) + "__"@
}

/// A text with the first `n` timelines in their places.
pub open spec fn filled(text: Seq<char>, timelines: Seq<TimelineView>, n: nat) -> Seq<char>
    decreases n,
{
    if n == 0 {
        text
    } else {
        replaced(
            filled(text, timelines, (n - 1) as nat),
            mark_of((n - 1) as nat),
            timeline_text(timelines[n - 1]),
        )
    }
}

/// A sum, as far as a counter reaches.
pub open spec fn plus(a: nat, b: nat) -> usize {
    if a + b < usize::MAX {
        (a + b) as usize
    } else {
        usize::MAX
    }
}

pub open spec fn minus(a: nat, b: nat) -> usize {
    if a > b {
        (a - b) as usize
    } else {
        0
    }
}

/// The first place from `i` on where a line ends.
pub open spec fn feed_from(bytes: Seq<u8>, i: int) -> Option<int>
    decreases bytes.len() - i,
{
    if i < 0 || i >= bytes.len() {
        None
    } else if bytes[i] == 10 {
        Some(i)
    } else {
        feed_from(bytes, i + 1)
    }
}

/// The newest bytes, from the beginning of a line on where there is one.
pub open spec fn newest(bytes: Seq<u8>) -> Seq<u8> {
    if bytes.len() <= MAX_TRANSCRIPT {
        bytes
    } else {
        let excess = bytes.len() - MAX_TRANSCRIPT;
        match feed_from(bytes, excess) {
            Some(i) => bytes.skip(i + 1),
            None => bytes.skip(excess),
        }
    }
}

/// Bytes without the line feeds at their end.
pub open spec fn without_feeds(bytes: Seq<u8>) -> Seq<u8>
    decreases bytes.len(),
{
    if bytes.len() > 0 && bytes.last() == 10 {
        without_feeds(bytes.drop_last())
    } else {
        bytes
    }
}

impl TranscriptView {
    pub open spec fn wf(self) -> bool {
        &&& self.current matches Some(i) ==> i < self.timelines.len()
        &&& forall|i: int| 0 <= i < self.timelines.len() ==> (#[trigger] self.timelines[i]).wf()
    }

    /// Nothing was said.
    pub open spec fn fresh() -> TranscriptView {
        TranscriptView {
            bytes: Seq::empty(),
            timelines: Seq::empty(),
            current: None,
            marked: false,
            rows: Seq::empty(),
            width: 0,
            dirty: true,
            anchor: None,
            scroll: 0,
        }
    }

    /// The text that is shown.
    pub open spec fn text(self) -> Seq<char> {
        filled(strip_ansi_of(lossy(self.bytes)), self.timelines, self.timelines.len())
    }

    /// The text is about to change.
    pub open spec fn dirtied(self) -> TranscriptView {
        TranscriptView {
            anchor: if self.scroll > 0 && self.anchor is None {
                Some(self.rows.len() as usize)
            } else {
                self.anchor
            },
            dirty: true,
            ..self
        }
    }

    /// The rows for `width` columns. A scrolled view stays where it is.
    pub open spec fn laid(self, width: usize) -> TranscriptView {
        if self.dirty || self.width != width {
            let rows = formatted(self.text(), width as int);
            TranscriptView {
                rows,
                width,
                dirty: false,
                anchor: None,
                scroll: match self.anchor {
                    Some(before) => if self.scroll > 0 {
                        plus(self.scroll as nat, minus(rows.len(), before as nat) as nat)
                    } else {
                        0
                    },
                    None => self.scroll,
                },
                ..self
            }
        } else {
            self
        }
    }

    /// Some text arrived.
    pub open spec fn written(self, more: Seq<u8>) -> TranscriptView {
        let d = self.dirtied();
        let bytes = d.bytes + more;
        TranscriptView {
            bytes: newest(bytes),
            scroll: if bytes.len() > MAX_TRANSCRIPT {
                0
            } else {
                d.scroll
            },
            ..d
        }
    }

    /// Text is added whatever its length.
    pub open spec fn added(self, more: Seq<u8>) -> TranscriptView {
        let d = self.dirtied();
        TranscriptView { bytes: d.bytes + more, ..d }
    }

    /// A message of the user begins a turn.
    pub open spec fn asked(self, text: Seq<char>) -> TranscriptView {
        let d = self.dirtied();
        TranscriptView {
            bytes: without_feeds(d.bytes) + encode_utf8("\n\nyou › "@ + text + "\n"@),
            scroll: 0,
            ..d
        }
    }

    /// No more than the newest is kept.
    pub open spec fn trimmed(self) -> TranscriptView {
        if self.bytes.len() > MAX_TRANSCRIPT {
            let d = self.dirtied();
            TranscriptView { bytes: newest(d.bytes), scroll: 0, ..d }
        } else {
            self
        }
    }

    pub open spec fn cleared(self) -> TranscriptView {
        let d = self.dirtied();
        TranscriptView {
            bytes: Seq::empty(),
            timelines: Seq::empty(),
            current: None,
            marked: false,
            scroll: 0,
            ..d
        }
    }

    /// The timeline of the work is over; what it shows becomes text.
    pub open spec fn frozen(self, full: bool) -> TranscriptView {
        if self.timelines.len() == 0 {
            TranscriptView { current: None, marked: false, ..self }
        } else {
            let d = self.dirtied();
            let finished = TranscriptView {
                timelines: match d.current {
                    Some(i) => d.timelines.update(i as int, d.timelines[i as int].finish()),
                    None => d.timelines,
                },
                current: None,
                marked: false,
                ..d
            };
            if full {
                TranscriptView {
                    bytes: encode_utf8(finished.text()),
                    timelines: Seq::empty(),
                    ..finished
                }
            } else {
                finished
            }
        }
    }

    /// There is a timeline for the work.
    pub open spec fn opened(self, fresh: TimelineView) -> TranscriptView {
        let d = self.dirtied();
        match d.current {
            Some(_) => d,
            None => TranscriptView {
                timelines: d.timelines.push(fresh),
                current: Some(d.timelines.len() as usize),
                marked: false,
                ..d
            },
        }
    }

    /// The timeline of the work becomes `t`, and gets a place once it shows
    /// something.
    pub open spec fn advanced(self, t: TimelineView) -> TranscriptView {
        let i = self.current->0;
        let next = TranscriptView { timelines: self.timelines.update(i as int, t), ..self };
        if !self.marked && timeline_text(t).len() > 0 {
            TranscriptView {
                bytes: next.bytes + encode_utf8("\n"@ + mark_of(i as nat) + "\n"@),
                marked: true,
                ..next
            }
        } else {
            next
        }
    }

    pub open spec fn tool_start(
        self,
        id: Seq<char>,
        name: Seq<char>,
        path: Seq<char>,
    ) -> TranscriptView {
        let o = self.opened(TimelineView::fresh());
        o.advanced(o.timelines[o.current->0 as int].tool_start(id, name, path))
    }

    pub open spec fn tool_end(
        self,
        id: Seq<char>,
        name: Seq<char>,
        path: Seq<char>,
        failed: bool,
        diff: Option<Seq<char>>,
    ) -> TranscriptView {
        let o = self.opened(TimelineView::fresh());
        o.advanced(o.timelines[o.current->0 as int].tool_end(id, name, path, failed, diff))
    }

    /// The glyph of the work that goes on turns.
    pub open spec fn turned(self) -> (TranscriptView, bool) {
        match self.current {
            Some(i) => {
                let t = self.timelines[i as int];
                if t.is_exploring() {
                    (
                        TranscriptView {
                            timelines: self.timelines.update(
                                i as int,
                                TimelineView {
                                    explore_frame: ((t.explore_frame + 1) % 4) as usize,
                                    ..t
                                },
                            ),
                            ..self
                        }.dirtied(),
                        true,
                    )
                } else {
                    (self, false)
                }
            },
            None => (self, false),
        }
    }

    pub open spec fn scrolled(self, offset: int) -> TranscriptView {
        TranscriptView {
            scroll: if offset > 0 {
                plus(self.scroll as nat, offset as nat)
            } else {
                minus(self.scroll as nat, (-offset) as nat)
            },
            ..self
        }
    }
}

/// The place that a timeline has among the bytes.
fn mark(i: usize) -> (out: String)
    ensures
        out@ == mark_of(i as nat),
{
    let number = decimal_text(i as u64);
    cat3("· __hibiscus_activity_", number.as_str(), "__")
}

proof fn lemma_mark_len(i: nat)
    ensures
        mark_of(i).len() > 0,
{
    reveal_strlit("__");
}

pub(crate) fn extend_bytes(out: &mut Vec<u8>, more: &[u8])
    ensures
        final(out)@ == old(out)@ + more@,
{
    let ghost start = out@;
    let n: usize = more.len();
    let mut i: usize = 0;
    assert(out@ =~= start + more@.take(0));
    while i < n
        invariant
            i <= n,
            n == more@.len(),
            out@ =~= start + more@.take(i as int),
        decreases n - i,
    {
        out.push(more[i]);
        i = i + 1;
        assert(more@.take(i as int) =~= more@.take(i - 1).push(more@[i - 1]));
    }
    assert(more@.take(n as int) =~= more@);
}

fn keep_newest(bytes: &mut Vec<u8>)
    ensures
        final(bytes)@ == newest(old(bytes)@),
{
    let n: usize = bytes.len();
    if n <= MAX_TRANSCRIPT {
        return;
    }
    let ghost all = bytes@;
    let excess: usize = n - MAX_TRANSCRIPT;
    let mut cut: usize = excess;
    let mut i: usize = excess;
    let mut found = false;
    while i < n && !found
        invariant
            excess <= i <= n,
            n == bytes@.len(),
            bytes@ == all,
            excess == all.len() - MAX_TRANSCRIPT,
            !found ==> cut == excess && feed_from(all, excess as int) == feed_from(all, i as int),
            found ==> cut == i && excess < i && feed_from(all, excess as int) == Some(i - 1),
        decreases n - i,
    {
        if bytes[i] == 10 {
            found = true;
            cut = i + 1;
        }
        i = i + 1;
    }
    let tail = slice_subrange(bytes.as_slice(), cut, n);
    let mut out: Vec<u8> = Vec::new();
    extend_bytes(&mut out, tail);
    assert(out@ =~= newest(all));
    *bytes = out;
}

impl Transcript {
    pub fn new() -> (r: Self)
        ensures
            r@ == TranscriptView::fresh(),
            r@.wf(),
    {
        let r = Transcript {
            bytes: Vec::new(),
            timelines: Vec::new(),
            current: None,
            marked: false,
            rows: Vec::new(),
            width: 0,
            dirty: true,
            anchor: None,
            scroll: 0,
        };
        assert(r@.bytes =~= Seq::empty());
        assert(r@.timelines =~= Seq::empty());
        assert(r@.rows =~= Seq::empty());
        r
    }

    fn mark_dirty(&mut self)
        ensures
            final(self)@ == old(self)@.dirtied(),
            final(self).timelines == old(self).timelines,
    {
        let count: usize = self.rows.len();
        if self.scroll > 0 && self.anchor.is_none() {
            self.anchor = Some(count);
        }
        self.dirty = true;
        assert(self@ =~= old(self)@.dirtied());
    }

    /// The text that is shown.
    pub fn text(&self) -> (out: String)
        ensures
            out@ == self@.text(),
    {
        let raw = lossy_text(self.bytes.as_slice());
        let chars = chars_of(raw.as_str());
        let mut text = strip_ansi(chars.as_slice());
        let ghost plain = text@;
        let mut i: usize = 0;
        while i < self.timelines.len()
            invariant
                i <= self.timelines@.len(),
                text@ == filled(plain, timeline_views(self.timelines@), i as nat),
            decreases self.timelines@.len() - i,
        {
            let place = chars_of(mark(i).as_str());
            let lines = self.timelines[i].lines();
            let shown = chars_of(lines.as_str());
            proof {
                lemma_mark_len(i as nat);
            }
            text = replace(text.as_slice(), place.as_slice(), shown.as_slice());
            i = i + 1;
        }
        text_of(text.as_slice())
    }

    /// Bring the rows up to date.
    pub fn lay_out(&mut self, width: usize)
        ensures
            final(self)@ == old(self)@.laid(width),
            old(self)@.wf() ==> final(self)@.wf(),
    {
        let ghost start = self@;
        if self.dirty || self.width != width {
            let text = self.text();
            self.rows = crate::markdown::format(text.as_str(), width);
            let count: usize = self.rows.len();
            self.width = width;
            self.dirty = false;
            if let Some(before) = self.anchor {
                if self.scroll > 0 {
                    let grown: usize = if count > before {
                        count - before
                    } else {
                        0
                    };
                    self.scroll = if usize::MAX - grown > self.scroll {
                        self.scroll + grown
                    } else {
                        usize::MAX
                    };
                }
            }
            self.anchor = None;
            assert(self@.rows == formatted(start.text(), width as int));
            assert(self@ =~= start.laid(width));
        }
    }

    /// Some text arrived.
    pub fn write(&mut self, more: &[u8])
        ensures
            final(self)@ == old(self)@.written(more@),
            old(self)@.wf() ==> final(self)@.wf(),
    {
        self.mark_dirty();
        let ghost d = self@;
        extend_bytes(&mut self.bytes, more);
        if self.bytes.len() > MAX_TRANSCRIPT {
            keep_newest(&mut self.bytes);
            self.scroll = 0;
        }
        assert(self@ =~= old(self)@.written(more@));
    }

    /// Text is added whatever its length.
    pub fn add(&mut self, text: &str)
        ensures
            final(self)@ == old(self)@.added(encode_utf8(text@)),
            old(self)@.wf() ==> final(self)@.wf(),
    {
        self.mark_dirty();
        extend_bytes(&mut self.bytes, text.as_bytes());
        assert(self@ =~= old(self)@.added(encode_utf8(text@)));
    }

    /// A message of the user begins a turn.
    pub fn ask(&mut self, text: &str)
        ensures
            final(self)@ == old(self)@.asked(text@),
            old(self)@.wf() ==> final(self)@.wf(),
    {
        self.mark_dirty();
        let ghost d = self@;
        let mut n: usize = self.bytes.len();
        assert(self.bytes@.take(n as int) =~= self.bytes@);
        while n > 0 && self.bytes[n - 1] == 10
            invariant
                n <= self.bytes@.len(),
                self@ == d,
                without_feeds(d.bytes) == without_feeds(d.bytes.take(n as int)),
            decreases n,
        {
            assert(d.bytes.take(n as int).drop_last() =~= d.bytes.take(n - 1));
            n = n - 1;
        }
        self.bytes.truncate(n);
        let shown = cat3("\n\nyou › ", text, "\n");
        extend_bytes(&mut self.bytes, shown.as_str().as_bytes());
        self.scroll = 0;
        assert(self@ =~= old(self)@.asked(text@));
    }

    /// No more than the newest is kept.
    pub fn trim(&mut self)
        ensures
            final(self)@ == old(self)@.trimmed(),
            old(self)@.wf() ==> final(self)@.wf(),
    {
        if self.bytes.len() > MAX_TRANSCRIPT {
            self.mark_dirty();
            keep_newest(&mut self.bytes);
            self.scroll = 0;
            assert(self@ =~= old(self)@.trimmed());
        }
    }

    pub fn clear(&mut self)
        ensures
            final(self)@ == old(self)@.cleared(),
            final(self)@.wf(),
    {
        self.mark_dirty();
        self.bytes.clear();
        self.timelines.clear();
        self.current = None;
        self.marked = false;
        self.scroll = 0;
        assert(self@ =~= old(self)@.cleared());
    }

    /// The timeline of the work is over.
    pub fn freeze(&mut self, full: bool)
        requires
            old(self)@.wf(),
        ensures
            final(self)@ == old(self)@.frozen(full),
            final(self)@.wf(),
    {
        let ghost start = self@;
        if self.timelines.len() == 0 {
            self.current = None;
            self.marked = false;
            assert(self@ =~= start.frozen(full));
            return;
        }
        self.mark_dirty();
        let ghost d = self@;
        if let Some(i) = self.current {
            assert(d.timelines[i as int].wf());
            let mut timeline = self.timelines.remove(i);
            let ghost before = timeline@;
            timeline.finish();
            let ghost after = timeline@;
            self.timelines.insert(i, timeline);
            assert(self@.timelines =~= d.timelines.update(i as int, after));
        }
        self.current = None;
        self.marked = false;
        let ghost finished = self@;
        assert(finished =~= (TranscriptView {
            timelines: match d.current {
                Some(i) => d.timelines.update(i as int, d.timelines[i as int].finish()),
                None => d.timelines,
            },
            current: None,
            marked: false,
            ..d
        }));
        if full {
            let text = self.text();
            let mut bytes: Vec<u8> = Vec::new();
            extend_bytes(&mut bytes, text.as_str().as_bytes());
            assert(bytes@ =~= encode_utf8(finished.text()));
            self.bytes = bytes;
            self.timelines.clear();
            assert(self@.timelines =~= Seq::empty());
        }
        assert(self@ =~= start.frozen(full));
        assert(self@.wf());
    }

    /// There is a timeline for the work; its place.
    fn open(&mut self) -> (i: usize)
        requires
            old(self)@.wf(),
        ensures
            final(self)@ == old(self)@.opened(TimelineView::fresh()),
            final(self)@.wf(),
            final(self)@.current == Some(i),
    {
        self.mark_dirty();
        let ghost d = self@;
        match self.current {
            Some(i) => i,
            None => {
                let i: usize = self.timelines.len();
                self.timelines.push(Timeline::default());
                self.current = Some(i);
                self.marked = false;
                assert(self@.timelines =~= d.timelines.push(TimelineView::fresh()));
                assert(self@ =~= old(self)@.opened(TimelineView::fresh()));
                i
            },
        }
    }

    /// The timeline `i` of the work becomes `timeline`.
    fn advance(&mut self, i: usize, timeline: Timeline)
        requires
            old(self)@.wf(),
            old(self)@.current == Some(i),
            timeline@.wf(),
        ensures
            final(self)@ == old(self)@.advanced(timeline@),
            final(self)@.wf(),
    {
        let ghost start = self@;
        let ghost t = timeline@;
        let shows = timeline.lines();
        let some = chars_of(shows.as_str()).len() > 0;
        self.timelines.set(i, timeline);
        assert(self@.timelines =~= start.timelines.update(i as int, t));
        if !self.marked && some {
            let place = mark(i);
            let line = cat3("\n", place.as_str(), "\n");
            extend_bytes(&mut self.bytes, line.as_str().as_bytes());
            self.marked = true;
        }
        assert(self@ =~= start.advanced(t));
    }

    /// Take the timeline `i` out, in place of an empty one.
    fn take(&mut self, i: usize) -> (timeline: Timeline)
        requires
            old(self)@.wf(),
            i < old(self)@.timelines.len(),
        ensures
            timeline@ == old(self)@.timelines[i as int],
            final(self)@ == (TranscriptView {
                timelines: old(self)@.timelines.update(i as int, TimelineView::fresh()),
                ..old(self)@
            }),
            final(self)@.wf(),
    {
        let timeline = Timeline::default();
        let ghost start = self@;
        let taken = self.timelines.remove(i);
        self.timelines.insert(i, timeline);
        assert(self@.timelines =~= start.timelines.update(i as int, TimelineView::fresh()));
        assert(self@ =~= (TranscriptView {
            timelines: start.timelines.update(i as int, TimelineView::fresh()),
            ..start
        }));
        taken
    }

    pub fn tool_start(&mut self, id: &str, name: &str, path: &str)
        requires
            old(self)@.wf(),
        ensures
            final(self)@ == old(self)@.tool_start(id@, name@, path@),
            final(self)@.wf(),
    {
        let i: usize = self.open();
        let ghost o = self@;
        assert(o.timelines[i as int].wf());
        let mut timeline = self.take(i);
        let ghost taken = self@;
        timeline.tool_start(id, name, path);
        let ghost t = timeline@;
        self.advance(i, timeline);
        proof {
            assert(taken.timelines.update(i as int, t) =~= o.timelines.update(i as int, t));
            assert(taken.advanced(t) =~= o.advanced(t));
        }
    }

    pub fn tool_end(&mut self, id: &str, name: &str, path: &str, failed: bool, diff: Option<&str>)
        requires
            old(self)@.wf(),
        ensures
            final(self)@ == old(self)@.tool_end(
                id@,
                name@,
                path@,
                failed,
                match diff {
                    Some(text) => Some(text@),
                    None => None,
                },
            ),
            final(self)@.wf(),
    {
        let i: usize = self.open();
        let ghost o = self@;
        assert(o.timelines[i as int].wf());
        let mut timeline = self.take(i);
        let ghost taken = self@;
        timeline.tool_end(id, name, path, failed, diff);
        let ghost t = timeline@;
        self.advance(i, timeline);
        proof {
            assert(taken.timelines.update(i as int, t) =~= o.timelines.update(i as int, t));
            assert(taken.advanced(t) =~= o.advanced(t));
        }
    }

    /// Turn the glyph of the work that goes on; whether there is one.
    pub fn turn(&mut self) -> (r: bool)
        requires
            old(self)@.wf(),
        ensures
            (final(self)@, r) == old(self)@.turned(),
            final(self)@.wf(),
    {
        let ghost start = self@;
        match self.current {
            None => false,
            Some(i) => {
                assert(start.timelines[i as int].wf());
                let mut timeline = self.take(i);
                let ghost taken = self@;
                let turned = timeline.advance_explore();
                let ghost t = timeline@;
                self.timelines.set(i, timeline);
                assert(self@.timelines =~= taken.timelines.update(i as int, t));
                assert(self@.timelines =~= start.timelines.update(i as int, t));
                if turned {
                    self.mark_dirty();
                } else {
                    assert(self@.timelines =~= start.timelines);
                }
                assert(self@ =~= start.turned().0);
                turned
            },
        }
    }

    pub fn scroll_by(&mut self, offset: i128)
        requires
            -0x1_0000_0000_0000_0000_0000_0000 <= offset <= 0x1_0000_0000_0000_0000_0000_0000,
        ensures
            final(self)@ == old(self)@.scrolled(offset as int),
            old(self)@.wf() ==> final(self)@.wf(),
    {
        let target: i128 = self.scroll as i128 + offset;
        self.scroll = if target < 0 {
            0
        } else if target > usize::MAX as i128 {
            usize::MAX
        } else {
            target as usize
        };
        assert(self@ =~= old(self)@.scrolled(offset as int));
    }
}

// ---------------------------------------------------------------------------
// Laws
// ---------------------------------------------------------------------------

/// A conversation never grows beyond what is kept.
pub proof fn law_transcripts_are_bounded(t: TranscriptView, more: Seq<u8>)
    ensures
        t.written(more).bytes.len() <= MAX_TRANSCRIPT,
        t.trimmed().bytes.len() <= MAX_TRANSCRIPT,
{
    lemma_feed_from(t.bytes + more, (t.bytes.len() + more.len()) - MAX_TRANSCRIPT);
    lemma_feed_from(t.bytes, t.bytes.len() - MAX_TRANSCRIPT);
}

proof fn lemma_feed_from(bytes: Seq<u8>, i: int)
    ensures
        feed_from(bytes, i) matches Some(k) ==> i <= k < bytes.len(),
    decreases bytes.len() - i,
{
    if 0 <= i < bytes.len() && bytes[i] != 10 {
        lemma_feed_from(bytes, i + 1);
    }
}

/// A view at the latest row stays there when text arrives.
pub proof fn law_latest_text_stays_in_view(t: TranscriptView, more: Seq<u8>, width: usize)
    requires
        t.scroll == 0,
    ensures
        t.written(more).laid(width).scroll == 0,
{
}

/// A scrolled view keeps its distance to the oldest row when text arrives: it
/// is moved by the rows that were added, once.
pub proof fn law_scrolled_view_stays_in_place(t: TranscriptView, more: Seq<u8>, width: usize)
    requires
        t.scroll > 0,
        !t.dirty,
        t.anchor is None,
        t.rows.len() <= usize::MAX,
        t.bytes.len() + more.len() <= MAX_TRANSCRIPT,
        t.written(more).laid(width).rows.len() >= t.rows.len(),
        t.scroll + t.written(more).laid(width).rows.len() < usize::MAX,
    ensures
        ({
            let after = t.written(more).laid(width);
            &&& after.scroll - t.scroll == after.rows.len() - t.rows.len()
            &&& after.laid(width) == after
        }),
{
}

/// Nothing that could still change is left once the work is over: activity
/// has become text.
pub proof fn law_freezing_leaves_no_timeline(t: TranscriptView)
    ensures
        t.frozen(true).timelines.len() == 0,
        t.frozen(true).current is None,
{
}

proof fn lemma_first_feed(bytes: Seq<u8>, i: int)
    requires
        0 <= i <= bytes.len(),
    ensures
        match feed_from(bytes, i) {
            Some(k) => i <= k < bytes.len() && bytes[k] == 10 && forall|j: int|
                i <= j < k ==> #[trigger] bytes[j] != 10,
            None => forall|j: int| i <= j < bytes.len() ==> #[trigger] bytes[j] != 10,
        },
    decreases bytes.len() - i,
{
    if i < bytes.len() && bytes[i] != 10 {
        lemma_first_feed(bytes, i + 1);
    }
}

/// What is written goes to the end. Where that is too much, whole lines are
/// dropped at the beginning, and no more of them than needed.
pub proof fn law_text_is_kept_from_the_end(t: TranscriptView, more: Seq<u8>)
    ensures
        t.bytes.len() + more.len() <= MAX_TRANSCRIPT ==> t.written(more).bytes == t.bytes + more,
        t.bytes.len() + more.len() > MAX_TRANSCRIPT ==> ({
            let all = t.bytes + more;
            let kept = t.written(more).bytes;
            let k = all.len() - kept.len();
            let excess = all.len() - MAX_TRANSCRIPT;
            &&& excess <= k <= all.len()
            &&& kept == all.skip(k)
            &&& k > excess ==> all[k - 1] == 10
            &&& forall|j: int| excess <= j < k - 1 ==> #[trigger] all[j] != 10
        }),
        t.written(more).timelines == t.timelines,
{
    let all = t.bytes + more;
    if all.len() > MAX_TRANSCRIPT {
        let excess = all.len() - MAX_TRANSCRIPT;
        lemma_first_feed(all, excess);
        let kept = newest(all);
        assert(t.written(more).bytes == kept);
        match feed_from(all, excess) {
            Some(i) => {
                assert(kept == all.skip(i + 1));
            },
            None => {
                assert(kept == all.skip(excess));
            },
        }
    }
}

proof fn lemma_without_feeds(bytes: Seq<u8>)
    ensures
        ({
            let n = without_feeds(bytes).len() as int;
            &&& n <= bytes.len()
            &&& without_feeds(bytes) == bytes.take(n)
            &&& forall|i: int| n <= i < bytes.len() ==> #[trigger] bytes[i] == 10
        }),
    decreases bytes.len(),
{
    if bytes.len() > 0 && bytes.last() == 10 {
        lemma_without_feeds(bytes.drop_last());
        let n = without_feeds(bytes).len() as int;
        assert(bytes.drop_last().take(n) =~= bytes.take(n));
        assert forall|i: int| n <= i < bytes.len() implies #[trigger] bytes[i] == 10 by {
            if i < bytes.len() - 1 {
                assert(bytes.drop_last()[i] == bytes[i]);
            }
        }
    } else {
        assert(bytes.take(bytes.len() as int) =~= bytes);
    }
}

/// What the user sends goes to the end of the conversation, behind a blank
/// line, and is in view; nothing that was said is lost.
pub proof fn law_questions_are_added(t: TranscriptView, text: Seq<char>)
    ensures
        ({
            let u = t.asked(text);
            let more = encode_utf8("\n\nyou › "@ + text + "\n"@);
            let n = u.bytes.len() - more.len();
            &&& 0 <= n <= t.bytes.len()
            &&& u.bytes == t.bytes.take(n) + more
            &&& forall|i: int| n <= i < t.bytes.len() ==> #[trigger] t.bytes[i] == 10
            &&& u.scroll == 0
        }),
{
    lemma_without_feeds(t.bytes);
}

/// The view is scrolled by as many rows as it says, and never below the last.
pub proof fn law_views_scroll_by_rows(t: TranscriptView, offset: int)
    requires
        t.scroll + offset <= usize::MAX,
    ensures
        t.scroll + offset >= 0 ==> t.scrolled(offset).scroll == t.scroll + offset,
        t.scroll + offset < 0 ==> t.scrolled(offset).scroll == 0,
        t.scrolled(offset).bytes == t.bytes,
{
}

/// Tools that work at the same time share an activity, and a new one begins
/// where none is open: its place in the conversation is its end.
pub proof fn law_activity_begins_at_the_end(
    t: TranscriptView,
    id: Seq<char>,
    name: Seq<char>,
    path: Seq<char>,
)
    ensures
        t.current is None && t.timelines.len() < usize::MAX ==> ({
            let u = t.tool_start(id, name, path);
            &&& u.timelines.len() == t.timelines.len() + 1
            &&& u.current == Some(t.timelines.len() as usize)
            &&& u.timelines.last() == TimelineView::fresh().tool_start(id, name, path)
            &&& starts(u.bytes, t.bytes)
        }),
        t.current is Some && 0 <= t.current->0 < t.timelines.len() ==> ({
            let u = t.tool_start(id, name, path);
            &&& u.timelines.len() == t.timelines.len()
            &&& u.current == t.current
            &&& u.timelines[t.current->0 as int] == t.timelines[t.current->0 as int].tool_start(
                id,
                name,
                path,
            )
            &&& starts(u.bytes, t.bytes)
        }),
{
    let u = t.tool_start(id, name, path);
    assert(u.bytes.subrange(0, t.bytes.len() as int) =~= t.bytes);
}

/// Activity has one place in the conversation: it is marked there when there is
/// something to show, and what happens later adds nothing.
pub proof fn law_activity_has_one_place(
    t: TranscriptView,
    id: Seq<char>,
    name: Seq<char>,
    path: Seq<char>,
    failed: bool,
    diff: Option<Seq<char>>,
)
    requires
        t.current is Some,
        0 <= t.current->0 < t.timelines.len(),
    ensures
        t.marked ==> t.tool_start(id, name, path).bytes == t.bytes && t.tool_end(
            id,
            name,
            path,
            failed,
            diff,
        ).bytes == t.bytes,
        ({
            let u = t.tool_end(id, name, path, failed, diff);
            let i = t.current->0 as int;
            &&& u.timelines.len() == t.timelines.len()
            &&& u.timelines[i] == t.timelines[i].tool_end(id, name, path, failed, diff)
            &&& forall|k: int|
                0 <= k < t.timelines.len() && k != i ==> #[trigger] u.timelines[k]
                    == t.timelines[k]
            &&& !t.marked && timeline_text(u.timelines[i]).len() > 0 ==> u.marked && u.bytes
                == t.bytes + encode_utf8("\n"@ + mark_of(i as nat) + "\n"@)
        }),
{
}

/// Where activity is marked, its text stands: what is before and behind the
/// mark stays as it is.
pub proof fn law_marks_show_their_activity(
    text: Seq<char>,
    a: Seq<char>,
    b: Seq<char>,
    timelines: Seq<TimelineView>,
    n: nat,
)
    requires
        n < timelines.len(),
        filled(text, timelines, n) == a + mark_of(n) + b,
        forall|i: int|
            0 <= i < a.len() ==> !crate::text::occurs_at(a + mark_of(n) + b, mark_of(n), i),
        forall|i: int| !crate::text::occurs_at(b, mark_of(n), i),
    ensures
        filled(text, timelines, n + 1) == a + timeline_text(timelines[n as int]) + b,
        filled(text, timelines, 0) == text,
{
    reveal_strlit("__");
    assert(mark_of(n).len() > 0);
    crate::lines::law_occurrences_are_replaced(
        a,
        mark_of(n),
        b,
        timeline_text(timelines[n as int]),
    );
    crate::lines::law_nothing_else_is_replaced(
        b,
        mark_of(n),
        timeline_text(timelines[n as int]),
    );
}

/// Freezing keeps what is shown: the activity that goes on is finished, and
/// becomes text where all of it is frozen.
pub proof fn law_freezing_keeps_the_text(t: TranscriptView)
    requires
        t.timelines.len() > 0,
    ensures
        t.frozen(true).bytes == encode_utf8(t.frozen(false).text()),
        t.frozen(false).bytes == t.bytes,
        t.frozen(false).current is None,
        t.current is None ==> t.frozen(false).timelines == t.timelines,
        t.current is Some && 0 <= t.current->0 < t.timelines.len() ==> t.frozen(false).timelines
            == t.timelines.update(
            t.current->0 as int,
            t.timelines[t.current->0 as int].finish(),
        ),
{
}

/// A conversation that is cleared has nothing left.
pub proof fn law_cleared_conversations_are_empty(t: TranscriptView)
    ensures
        t.cleared().bytes.len() == 0,
        t.cleared().timelines.len() == 0,
        t.cleared().current is None,
        t.cleared().scroll == 0,
        t.cleared().dirty,
{
}

/// The rows are those of the text at the width that is asked for, and they are
/// laid out again whenever the text or the width has changed.
pub proof fn law_rows_follow_the_text(t: TranscriptView, more: Seq<u8>, width: usize)
    ensures
        t.dirty || t.width != width ==> t.laid(width).rows == formatted(t.text(), width as int),
        t.laid(width).text() == t.text(),
        t.anchor is None ==> t.laid(width).scroll == t.scroll,
        t.written(more).laid(width).rows == formatted(t.written(more).text(), width as int),
        !t.laid(width).dirty,
        t.laid(width).width == width,
{
}

/// While files are looked at the mark turns, through four shapes; nothing else
/// changes, and nothing turns without that.
pub proof fn law_the_mark_turns(t: TranscriptView, i: usize)
    requires
        t.current == Some(i),
        i < t.timelines.len(),
    ensures
        t.timelines[i as int].is_exploring() ==> t.turned().1 && t.turned().0.dirty
            && t.turned().0.timelines[i as int].explore_frame == (t.timelines[
            i as int].explore_frame + 1) % 4,
        t.turned().0.bytes == t.bytes,
        !t.timelines[i as int].is_exploring() ==> t.turned() == (t, false),
{
}

}
