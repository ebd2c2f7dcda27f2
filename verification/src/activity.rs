//! Display-only activity for one portion of a run. Routine reads and shell
//! calls contribute to one compact summary; edits and failures stay visible.
use crate::error::text_view;
use crate::lines::{join, join_texts, lemma_texts_push, lines, rows, split_lines, texts};
use crate::number::{decimal, decimal_text};
use crate::table::{
    distinct, keys_of, lemma_name_index, lemma_remove_distinct, name_index, names_of, place_of,
};
use crate::text::{
    cat2, cat3, cat4, cat5, chars_of, clean_prefix, copy, ends, first_n, same, text_of,
    without_controls,
};
use crate::tools::{safe_diff_line, safe_diff_line_of, MAX_LINES};
use vstd::prelude::*;

verus! {

/// What became of a tool call.
pub enum Entry {
    /// A call that stays visible: its name and file, whether it runs, whether
    /// it failed, its diff, and how many lines of the diff are left out.
    Tool(String, String, bool, bool, Vec<String>, usize),
    /// A routine call that failed: its name and file.
    Failure(String, String),
}

/// What an [`Entry`] holds.
pub enum EntryView {
    Tool(Seq<char>, Seq<char>, bool, bool, Seq<Seq<char>>, usize),
    Failure(Seq<char>, Seq<char>),
}

impl View for Entry {
    type V = EntryView;

    open spec fn view(&self) -> EntryView {
        match *self {
            Entry::Tool(name, path, running, failed, diff, omitted) => EntryView::Tool(
                name@,
                path@,
                running,
                failed,
                texts(diff@),
                omitted,
            ),
            Entry::Failure(name, path) => EntryView::Failure(name@, path@),
        }
    }
}

/// A call that runs.
pub enum Call {
    Read(String),
    Bash,
    /// The place of its entry.
    Entry(usize),
}

/// What a [`Call`] holds.
pub enum CallView {
    Read(Seq<char>),
    Bash,
    Entry(usize),
}

impl View for Call {
    type V = CallView;

    open spec fn view(&self) -> CallView {
        match *self {
            Call::Read(path) => CallView::Read(path@),
            Call::Bash => CallView::Bash,
            Call::Entry(i) => CallView::Entry(i),
        }
    }
}

pub struct Timeline {
    pub entries: Vec<Entry>,
    pub calls: Vec<(String, Call)>,
    pub reads: usize,
    pub commands: usize,
    pub latest_read: Option<String>,
    pub active_reads: usize,
    pub interrupted_reads: bool,
    pub exploring: bool,
    pub exploration_ended: bool,
    pub explore_frame: usize,
}

/// What a [`Timeline`] holds.
#[verifier::ext_equal]
pub struct TimelineView {
    pub entries: Seq<EntryView>,
    pub calls: Seq<(Seq<char>, CallView)>,
    pub reads: usize,
    pub commands: usize,
    pub latest_read: Option<Seq<char>>,
    pub active_reads: usize,
    pub interrupted_reads: bool,
    pub exploring: bool,
    pub exploration_ended: bool,
    pub explore_frame: usize,
}

pub open spec fn entry_views(entries: Seq<Entry>) -> Seq<EntryView> {
    Seq::new(entries.len(), |i: int| entries[i]@)
}

pub open spec fn call_views(calls: Seq<(String, Call)>) -> Seq<(Seq<char>, CallView)> {
    Seq::new(calls.len(), |i: int| (calls[i].0@, calls[i].1@))
}

impl View for Timeline {
    type V = TimelineView;

    open spec fn view(&self) -> TimelineView {
        TimelineView {
            entries: entry_views(self.entries@),
            calls: call_views(self.calls@),
            reads: self.reads,
            commands: self.commands,
            latest_read: text_view(self.latest_read),
            active_reads: self.active_reads,
            interrupted_reads: self.interrupted_reads,
            exploring: self.exploring,
            exploration_ended: self.exploration_ended,
            explore_frame: self.explore_frame,
        }
    }
}

/// At most 90 characters, none of them a control character.
pub open spec fn safe_of(text: Seq<char>) -> Seq<char> {
    first_n(without_controls(text), 90)
}

fn safe(text: &str) -> (out: String)
    ensures
        out@ == safe_of(text@),
{
    clean_prefix(text, 90)
}

/// One more, as far as a counter reaches.
pub open spec fn bump(n: usize) -> usize {
    if n < usize::MAX {
        (n + 1) as usize
    } else {
        n
    }
}

fn bumped(n: usize) -> (r: usize)
    ensures
        r == bump(n),
{
    if n < usize::MAX {
        n + 1
    } else {
        n
    }
}

impl TimelineView {
    /// A call that has an entry has one that is there, no two calls have the
    /// same identifier, and the glyph is one of four.
    pub open spec fn wf(self) -> bool {
        &&& self.explore_frame < 4
        &&& distinct(self.calls)
        &&& forall|i: int|
            0 <= i < self.calls.len() ==> ((#[trigger] self.calls[i]).1 matches CallView::Entry(k)
                ==> k < self.entries.len())
    }

    /// Nothing has happened yet.
    pub open spec fn fresh() -> TimelineView {
        TimelineView {
            entries: Seq::empty(),
            calls: Seq::empty(),
            reads: 0,
            commands: 0,
            latest_read: None,
            active_reads: 0,
            interrupted_reads: false,
            exploring: false,
            exploration_ended: false,
            explore_frame: 0,
        }
    }

    pub open spec fn is_exploring(self) -> bool {
        &&& self.latest_read is Some
        &&& self.exploring
        &&& !self.interrupted_reads
        &&& !self.exploration_ended || self.active_reads > 0
    }

    /// A call of the tool `name` is noted.
    pub open spec fn begun(self, name: Seq<char>, path: Seq<char>) -> (TimelineView, CallView) {
        if name == "read"@ {
            (
                TimelineView {
                    exploring: true,
                    exploration_ended: false,
                    latest_read: Some(safe_of(path)),
                    ..self
                },
                CallView::Read(safe_of(path)),
            )
        } else if name == "bash"@ {
            (self, CallView::Bash)
        } else {
            (
                TimelineView {
                    exploration_ended: self.exploration_ended || name == "edit"@ || name
                        == "write"@,
                    entries: self.entries.push(
                        EntryView::Tool(
                            safe_of(name),
                            safe_of(path),
                            true,
                            false,
                            Seq::empty(),
                            0,
                        ),
                    ),
                    ..self
                },
                CallView::Entry(self.entries.len() as usize),
            )
        }
    }

    pub open spec fn tool_start(
        self,
        id: Seq<char>,
        name: Seq<char>,
        path: Seq<char>,
    ) -> TimelineView {
        if name_index(names_of(self.calls), id) is Some {
            self
        } else {
            let (t, call) = self.begun(name, path);
            TimelineView {
                active_reads: if call is Read {
                    bump(t.active_reads)
                } else {
                    t.active_reads
                },
                calls: t.calls.push((id, call)),
                ..t
            }
        }
    }

    /// A call is over.
    pub open spec fn settled(
        self,
        call: CallView,
        matched: bool,
        name: Seq<char>,
        failed: bool,
        diff: Option<Seq<char>>,
    ) -> TimelineView {
        match call {
            CallView::Read(path) => {
                let t = TimelineView {
                    active_reads: if matched && self.active_reads > 0 {
                        (self.active_reads - 1) as usize
                    } else {
                        self.active_reads
                    },
                    ..self
                };
                if failed {
                    TimelineView {
                        entries: t.entries.push(EntryView::Failure("read"@, path)),
                        ..t
                    }
                } else {
                    TimelineView { reads: bump(t.reads), ..t }
                }
            },
            CallView::Bash => if failed {
                TimelineView {
                    entries: self.entries.push(EntryView::Failure("bash"@, "command hidden"@)),
                    ..self
                }
            } else {
                TimelineView { commands: bump(self.commands), ..self }
            },
            CallView::Entry(i) => TimelineView {
                entries: self.entries.update(
                    i as int,
                    closed_entry(self.entries[i as int], name, failed, diff),
                ),
                ..self
            },
        }
    }

    pub open spec fn tool_end(
        self,
        id: Seq<char>,
        name: Seq<char>,
        path: Seq<char>,
        failed: bool,
        diff: Option<Seq<char>>,
    ) -> TimelineView {
        match name_index(names_of(self.calls), id) {
            Some(i) => TimelineView { calls: self.calls.remove(i), ..self }.settled(
                self.calls[i].1,
                true,
                name,
                failed,
                diff,
            ),
            None => {
                let (t, call) = self.begun(name, path);
                t.settled(call, false, name, failed, diff)
            },
        }
    }

    /// Nothing more comes. A read that is not over is never reported as done.
    pub open spec fn finish(self) -> TimelineView {
        TimelineView {
            exploration_ended: true,
            interrupted_reads: self.interrupted_reads || self.active_reads > 0,
            active_reads: 0,
            ..self
        }
    }
}

/// The lines of a diff that are kept.
pub open spec fn kept_lines(diff: Seq<char>) -> Seq<Seq<char>> {
    let ls = first_n(lines(diff), MAX_LINES as nat);
    Seq::new(ls.len(), |i: int| safe_diff_line_of(ls[i]))
}

/// How many lines of a diff are left out.
pub open spec fn omitted_lines(diff: Seq<char>) -> usize {
    if lines(diff).len() > MAX_LINES {
        (lines(diff).len() - MAX_LINES) as usize
    } else {
        0
    }
}

/// An entry whose call is over. Only an edit that succeeded keeps its diff.
pub open spec fn closed_entry(
    entry: EntryView,
    name: Seq<char>,
    failed: bool,
    diff: Option<Seq<char>>,
) -> EntryView {
    match entry {
        EntryView::Tool(tool, path, _, _, shown, omitted) => if name == "edit"@ && !failed
            && diff is Some {
            EntryView::Tool(
                tool,
                path,
                false,
                failed,
                kept_lines(diff->0),
                omitted_lines(diff->0),
            )
        } else {
            EntryView::Tool(tool, path, false, failed, shown, omitted)
        },
        other => other,
    }
}

fn keep_lines(diff: &str) -> (r: (Vec<String>, usize))
    ensures
        texts(r.0@) == kept_lines(diff@),
        r.1 == omitted_lines(diff@),
{
    let chars = chars_of(diff);
    let ls = split_lines(chars.as_slice());
    let mut out: Vec<String> = Vec::new();
    let mut i: usize = 0;
    while i < ls.len() && i < MAX_LINES
        invariant
            i <= ls@.len(),
            i <= MAX_LINES,
            rows(ls@) == lines(diff@),
            out@.len() == i,
            forall|j: int|
                0 <= j < i ==> (#[trigger] out@[j])@ == safe_diff_line_of(lines(diff@)[j]),
        decreases ls@.len() - i,
    {
        assert(lines(diff@)[i as int] == ls@[i as int]@);
        out.push(safe_diff_line(text_of(ls[i].as_slice()).as_str()));
        i = i + 1;
    }
    assert(texts(out@) =~= kept_lines(diff@));
    let omitted: usize = if ls.len() > MAX_LINES {
        ls.len() - MAX_LINES
    } else {
        0
    };
    (out, omitted)
}

/// The glyph of an exploration.
pub open spec fn glyph(frame: usize) -> Seq<char> {
    if frame == 0 {
        "◐"@
    } else if frame == 1 {
        "◓"@
    } else if frame == 2 {
        "◑"@
    } else {
        "◒"@
    }
}

fn glyph_of(frame: usize) -> (r: &'static str)
    ensures
        r@ == glyph(frame),
{
    if frame == 0 {
        "◐"
    } else if frame == 1 {
        "◓"
    } else if frame == 2 {
        "◑"
    } else {
        "◒"
    }
}

pub open spec fn explore_status(t: TimelineView) -> Seq<char> {
    if t.interrupted_reads {
        "Explore stopped"@
    } else if t.is_exploring() {
        glyph(t.explore_frame) + " Exploring"@
    } else {
        "✓ Explored"@
    }
}

/// The lines of the summary.
pub open spec fn summary_lines(t: TimelineView) -> Seq<Seq<char>> {
    let explored = match t.latest_read {
        Some(path) => seq!["  · "@ + explore_status(t) + " · latest: "@ + path],
        None => Seq::empty(),
    };
    let read = if t.reads > 0 {
        explored.push(
            "  · ✓ Read · "@ + decimal(t.reads as nat) + (if t.reads == 1 {
                " file"@
            } else {
                " files"@
            }),
        )
    } else {
        explored
    };
    if t.commands > 0 {
        read.push(
            "  · ✓ Bash · "@ + decimal(t.commands as nat) + (if t.commands == 1 {
                " command"@
            } else {
                " commands"@
            }),
        )
    } else {
        read
    }
}

pub open spec fn symbol(running: bool, failed: bool) -> Seq<char> {
    if running {
        "◌"@
    } else if failed {
        "✗"@
    } else {
        "✓"@
    }
}

/// The lines of a diff, each indented.
pub open spec fn indented_lines(diff: Seq<Seq<char>>) -> Seq<Seq<char>> {
    Seq::new(diff.len(), |i: int| "    "@ + diff[i])
}

/// The lines of an entry.
pub open spec fn entry_lines(entry: EntryView) -> Seq<Seq<char>> {
    match entry {
        EntryView::Failure(name, path) => seq!["  · ✗ "@ + name + " · "@ + path],
        EntryView::Tool(name, path, running, failed, diff, omitted) => {
            let head = seq![
                "  · "@ + symbol(running, failed) + " "@ + name + " · "@ + path + (if running {
                    " …"@
                } else {
                    ""@
                }),
            ];
            if diff.len() == 0 {
                head
            } else {
                let body = head.push("  · diff · "@ + path) + indented_lines(diff);
                if omitted > 0 {
                    body.push("  · … "@ + decimal(omitted as nat) + " more diff lines"@)
                } else {
                    body
                }
            }
        },
    }
}

/// The lines of the first `n` entries.
pub open spec fn entries_lines(entries: Seq<EntryView>, n: nat) -> Seq<Seq<char>>
    decreases n,
{
    if n == 0 {
        Seq::empty()
    } else {
        entries_lines(entries, (n - 1) as nat) + entry_lines(entries[n - 1])
    }
}

/// What is shown of a timeline.
pub open spec fn timeline_text(t: TimelineView) -> Seq<char> {
    join(summary_lines(t) + entries_lines(t.entries, t.entries.len()), "\n"@)
}

fn add_line(out: &mut Vec<String>, line: String)
    ensures
        texts(final(out)@) == texts(old(out)@).push(line@),
{
    proof {
        lemma_texts_push(out@, line);
    }
    out.push(line);
}

fn add_entry(out: &mut Vec<String>, entry: &Entry)
    ensures
        texts(final(out)@) == texts(old(out)@) + entry_lines(entry@),
{
    let ghost before = texts(out@);
    match entry {
        Entry::Failure(name, path) => {
            add_line(out, cat4("  · ✗ ", name.as_str(), " · ", path.as_str()));
            assert(texts(out@) =~= before + entry_lines(entry@));
        },
        Entry::Tool(name, path, running, failed, diff, omitted) => {
            let mark = if *running {
                "◌"
            } else if *failed {
                "✗"
            } else {
                "✓"
            };
            let mut head = cat5("  · ", mark, " ", name.as_str(), " · ");
            head.append(path.as_str());
            head.append(
                if *running {
                    " …"
                } else {
                    ""
                },
            );
            let ghost first = head@;
            add_line(out, head);
            if diff.len() == 0 {
                assert(texts(out@) =~= before + entry_lines(entry@));
                return;
            }
            add_line(out, cat2("  · diff · ", path.as_str()));
            let ghost shown = texts(diff@);
            let ghost start = texts(out@);
            let mut i: usize = 0;
            assert(start + indented_lines(shown.take(0)) =~= start);
            while i < diff.len()
                invariant
                    i <= diff@.len(),
                    shown == texts(diff@),
                    texts(out@) == start + indented_lines(shown.take(i as int)),
                decreases diff@.len() - i,
            {
                proof {
                    assert(indented_lines(shown.take(i + 1)) =~= indented_lines(
                        shown.take(i as int),
                    ).push("    "@ + shown[i as int]));
                }
                add_line(out, cat2("    ", diff[i].as_str()));
                i = i + 1;
                assert(texts(out@) =~= start + indented_lines(shown.take(i as int)));
            }
            assert(shown.take(i as int) =~= shown);
            if *omitted > 0 {
                let n = decimal_text(*omitted as u64);
                add_line(out, cat3("  · … ", n.as_str(), " more diff lines"));
            }
            assert(texts(out@) =~= before + entry_lines(entry@));
        },
    }
}

impl Default for Timeline {
    fn default() -> (r: Self)
        ensures
            r@.wf(),
            r@ == TimelineView::fresh(),
    {
        let r = Timeline {
            entries: Vec::new(),
            calls: Vec::new(),
            reads: 0,
            commands: 0,
            latest_read: None,
            active_reads: 0,
            interrupted_reads: false,
            exploring: false,
            exploration_ended: false,
            explore_frame: 0,
        };
        assert(r@.entries =~= Seq::empty());
        assert(r@.calls =~= Seq::empty());
        r
    }
}

impl Timeline {
    fn begin(&mut self, name: &str, path: &str) -> (call: Call)
        requires
            old(self)@.wf(),
        ensures
            (final(self)@, call@) == old(self)@.begun(name@, path@),
            final(self)@.wf(),
            call@ matches CallView::Entry(k) ==> k < final(self)@.entries.len(),
    {
        let ghost start = self@;
        if same(name, "read") {
            let shown = safe(path);
            self.exploring = true;
            self.exploration_ended = false;
            self.latest_read = Some(copy(shown.as_str()));
            assert(self@ =~= start.begun(name@, path@).0);
            return Call::Read(shown);
        }
        if same(name, "bash") {
            return Call::Bash;
        }
        if same(name, "edit") || same(name, "write") {
            self.exploration_ended = true;
        }
        let index: usize = self.entries.len();
        self.entries.push(Entry::Tool(safe(name), safe(path), true, false, Vec::new(), 0));
        proof {
            assert(self.entries@[index as int]@->Tool_4 =~= Seq::empty());
            assert(self@.entries =~= start.begun(name@, path@).0.entries);
            assert(self@ =~= start.begun(name@, path@).0);
            assert forall|i: int| 0 <= i < self@.calls.len() implies ((#[trigger] self@.calls[i]).1 matches CallView::Entry(
                k,
            ) ==> k < self@.entries.len()) by {
                assert(self@.calls[i] == start.calls[i]);
            }
        }
        Call::Entry(index)
    }

    pub fn tool_start(&mut self, id: &str, name: &str, path: &str)
        requires
            old(self)@.wf(),
        ensures
            final(self)@ == old(self)@.tool_start(id@, name@, path@),
            final(self)@.wf(),
    {
        assert(keys_of(self.calls@) =~= names_of(self@.calls));
        if place_of(&self.calls, id).is_some() {
            return;
        }
        let call = self.begin(name, path);
        let ghost t = self@;
        let ghost c = call@;
        if let Call::Read(_) = &call {
            self.active_reads = bumped(self.active_reads);
        }
        self.calls.push((copy(id), call));
        proof {
            lemma_name_index(old(self)@.calls, id@);
            assert(self@.calls =~= t.calls.push((id@, c)));
            assert(self@ =~= old(self)@.tool_start(id@, name@, path@));
        }
    }

    fn settle(&mut self, call: Call, matched: bool, name: &str, failed: bool, diff: Option<&str>)
        requires
            old(self)@.wf(),
            call@ matches CallView::Entry(k) ==> k < old(self)@.entries.len(),
        ensures
            final(self)@ == old(self)@.settled(
                call@,
                matched,
                name@,
                failed,
                match diff {
                    Some(text) => Some(text@),
                    None => None,
                },
            ),
            final(self)@.wf(),
    {
        let ghost start = self@;
        match call {
            Call::Read(path) => {
                if matched && self.active_reads > 0 {
                    self.active_reads = self.active_reads - 1;
                }
                if failed {
                    self.entries.push(Entry::Failure(copy("read"), path));
                } else {
                    self.reads = bumped(self.reads);
                }
                assert(self@.calls =~= start.calls);
                assert(self@ =~= start.settled(call@, matched, name@, failed, None));
            },
            Call::Bash => {
                if failed {
                    self.entries.push(Entry::Failure(copy("bash"), copy("command hidden")));
                } else {
                    self.commands = bumped(self.commands);
                }
                assert(self@.calls =~= start.calls);
                assert(self@ =~= start.settled(call@, matched, name@, failed, None));
            },
            Call::Entry(i) => {
                let entry = match &self.entries[i] {
                    Entry::Tool(tool, path, _, _, shown, omitted) => {
                        let mut lines: Vec<String> = Vec::new();
                        let mut left: usize = *omitted;
                        let mut replaced = false;
                        if same(name, "edit") && !failed {
                            if let Some(diff) = diff {
                                let (kept, rest) = keep_lines(diff);
                                lines = kept;
                                left = rest;
                                replaced = true;
                            }
                        }
                        if !replaced {
                            lines = copy_texts(shown);
                        }
                        Entry::Tool(
                            copy(tool.as_str()),
                            copy(path.as_str()),
                            false,
                            failed,
                            lines,
                            left,
                        )
                    },
                    Entry::Failure(tool, path) => Entry::Failure(
                        copy(tool.as_str()),
                        copy(path.as_str()),
                    ),
                };
                let ghost closed = entry@;
                self.entries.set(i, entry);
                assert(self@.entries =~= start.entries.update(i as int, closed));
                assert(self@.calls =~= start.calls);
            },
        }
        assert forall|i: int| 0 <= i < self@.calls.len() implies ((#[trigger] self@.calls[i]).1 matches CallView::Entry(
            k,
        ) ==> k < self@.entries.len()) by {
            assert(self@.calls[i] == start.calls[i]);
        }
    }

    pub fn tool_end(&mut self, id: &str, name: &str, path: &str, failed: bool, diff: Option<&str>)
        requires
            old(self)@.wf(),
        ensures
            final(self)@ == old(self)@.tool_end(
                id@,
                name@,
                path@,
                failed,
                match diff {
                    Some(text) => Some(text@),
                    None => None,
                },
            ),
            final(self)@.wf(),
    {
        assert(keys_of(self.calls@) =~= names_of(self@.calls));
        match place_of(&self.calls, id) {
            Some(i) => {
                let ghost start = self@;
                let (_, call) = self.calls.remove(i);
                proof {
                    assert(self@.calls =~= start.calls.remove(i as int));
                    assert(self@ =~= (TimelineView {
                        calls: start.calls.remove(i as int),
                        ..start
                    }));
                    assert(start.calls[i as int].1 == call@);
                    lemma_remove_distinct(start.calls, i as int);
                    assert forall|j: int| 0 <= j < self@.calls.len() implies ((#[trigger] self@.calls[j]).1 matches CallView::Entry(
                        k,
                    ) ==> k < self@.entries.len()) by {
                        if j < i {
                            assert(self@.calls[j] == start.calls[j]);
                        } else {
                            assert(self@.calls[j] == start.calls[j + 1]);
                        }
                    }
                }
                self.settle(call, true, name, failed, diff);
            },
            None => {
                let call = self.begin(name, path);
                self.settle(call, false, name, failed, diff);
            },
        }
    }

    pub fn is_exploring(&self) -> (r: bool)
        ensures
            r == self@.is_exploring(),
    {
        self.latest_read.is_some() && self.exploring && !self.interrupted_reads && (
        !self.exploration_ended || self.active_reads > 0)
    }

    /// Rotate a single fixed-width glyph without changing any tool state.
    pub fn advance_explore(&mut self) -> (r: bool)
        requires
            old(self)@.wf(),
        ensures
            final(self)@.wf(),
            r == old(self)@.is_exploring(),
            final(self)@ == if r {
                TimelineView {
                    explore_frame: ((old(self)@.explore_frame + 1) % 4) as usize,
                    ..old(self)@
                }
            } else {
                old(self)@
            },
    {
        if !self.is_exploring() {
            return false;
        }
        self.explore_frame = (self.explore_frame + 1) % 4;
        assert(self@ =~= (TimelineView {
            explore_frame: ((old(self)@.explore_frame + 1) % 4) as usize,
            ..old(self)@
        }));
        true
    }

    /// Nothing more comes.
    pub fn finish(&mut self)
        ensures
            final(self)@ == old(self)@.finish(),
            old(self)@.wf() ==> final(self)@.wf(),
    {
        self.exploration_ended = true;
        if self.active_reads > 0 {
            self.interrupted_reads = true;
            self.active_reads = 0;
        }
        assert(self@ =~= old(self)@.finish());
    }

    pub fn lines(&self) -> (out: String)
        ensures
            out@ == timeline_text(self@),
    {
        let mut out: Vec<String> = Vec::new();
        assert(texts(out@) =~= Seq::empty());
        if let Some(path) = &self.latest_read {
            let status = if self.interrupted_reads {
                copy("Explore stopped")
            } else if self.is_exploring() {
                cat2(glyph_of(self.explore_frame), " Exploring")
            } else {
                copy("✓ Explored")
            };
            add_line(&mut out, cat4("  · ", status.as_str(), " · latest: ", path.as_str()));
            assert(texts(out@) =~= seq![
                "  · "@ + explore_status(self@) + " · latest: "@ + path@,
            ]);
        }
        if self.reads > 0 {
            add_line(
                &mut out,
                cat3(
                    "  · ✓ Read · ",
                    decimal_text(self.reads as u64).as_str(),
                    if self.reads == 1 {
                        " file"
                    } else {
                        " files"
                    },
                ),
            );
        }
        if self.commands > 0 {
            add_line(
                &mut out,
                cat3(
                    "  · ✓ Bash · ",
                    decimal_text(self.commands as u64).as_str(),
                    if self.commands == 1 {
                        " command"
                    } else {
                        " commands"
                    },
                ),
            );
        }
        let ghost head = summary_lines(self@);
        assert(texts(out@) =~= head);
        let ghost all = self@.entries;
        let mut i: usize = 0;
        assert(head + entries_lines(all, 0) =~= head);
        while i < self.entries.len()
            invariant
                i <= self.entries@.len(),
                all == entry_views(self.entries@),
                texts(out@) == head + entries_lines(all, i as nat),
            decreases self.entries@.len() - i,
        {
            add_entry(&mut out, &self.entries[i]);
            i = i + 1;
            assert(texts(out@) =~= head + entries_lines(all, i as nat));
        }
        join_texts(&out, "\n")
    }
}

fn copy_texts(v: &Vec<String>) -> (out: Vec<String>)
    ensures
        texts(out@) == texts(v@),
{
    let mut out: Vec<String> = Vec::new();
    let mut i: usize = 0;
    while i < v.len()
        invariant
            i <= v@.len(),
            out@.len() == i,
            forall|j: int| 0 <= j < i ==> (#[trigger] out@[j])@ == v@[j]@,
        decreases v@.len() - i,
    {
        out.push(copy(v[i].as_str()));
        i = i + 1;
    }
    assert(texts(out@) =~= texts(v@));
    out
}

// ---------------------------------------------------------------------------
// Laws
// ---------------------------------------------------------------------------

/// A shell command is never shown: what is shown does not depend on it.
pub proof fn law_shell_commands_are_hidden(
    t: TimelineView,
    id: Seq<char>,
    a: Seq<char>,
    b: Seq<char>,
    failed: bool,
    diff: Option<Seq<char>>,
)
    ensures
        t.tool_start(id, "bash"@, a) == t.tool_start(id, "bash"@, b),
        t.tool_end(id, "bash"@, a, failed, diff) == t.tool_end(id, "bash"@, b, failed, diff),
{
    reveal_strlit("read");
    reveal_strlit("bash");
    assert("bash"@[0] != "read"@[0]);
}

/// The end of a run completes no read: none that is still open is counted.
pub proof fn law_unfinished_reads_are_not_completed(t: TimelineView)
    ensures
        t.finish().reads == t.reads,
        t.finish().entries == t.entries,
        t.active_reads > 0 ==> t.finish().interrupted_reads,
        !t.finish().is_exploring(),
{
}

/// A failed call shows no diff, whatever the tool reported.
pub proof fn law_failed_calls_show_no_diff(
    t: TimelineView,
    i: usize,
    matched: bool,
    name: Seq<char>,
    a: Option<Seq<char>>,
    b: Option<Seq<char>>,
)
    ensures
        t.settled(CallView::Entry(i), matched, name, true, a) == t.settled(
            CallView::Entry(i),
            matched,
            name,
            true,
            b,
        ),
{
}

/// A call is counted once: the end of a call that was not started adds no
/// open read, and the end of one that was closes it.
pub proof fn law_reads_are_counted_once(t: TimelineView, id: Seq<char>, path: Seq<char>)
    requires
        name_index(names_of(t.calls), id) is None,
        t.active_reads < usize::MAX,
        t.reads < usize::MAX,
    ensures
        t.tool_end(id, "read"@, path, false, None).active_reads == t.active_reads,
        t.tool_end(id, "read"@, path, false, None).reads == t.reads + 1,
        t.tool_start(id, "read"@, path).active_reads == t.active_reads + 1,
        t.tool_start(id, "read"@, path).reads == t.reads,
{
}

/// A call of any tool but `read` and `bash` is listed at once, as running and
/// with its file; all that was listed stays.
pub proof fn law_calls_are_listed(t: TimelineView, id: Seq<char>, name: Seq<char>, path: Seq<char>)
    requires
        name_index(names_of(t.calls), id) is None,
        name != "read"@,
        name != "bash"@,
    ensures
        ({
            let u = t.tool_start(id, name, path);
            &&& u.entries.len() == t.entries.len() + 1
            &&& u.entries.last() == EntryView::Tool(
                safe_of(name),
                safe_of(path),
                true,
                false,
                Seq::empty(),
                0,
            )
            &&& forall|i: int|
                0 <= i < t.entries.len() ==> #[trigger] u.entries[i] == t.entries[i]
            &&& u.calls.last().0 == id
            &&& u.reads == t.reads && u.commands == t.commands
        }),
{
}

/// When a call that is listed is over, its own entry says how it ended, and no
/// other entry changes.
pub proof fn law_results_go_to_their_call(
    t: TimelineView,
    k: int,
    i: usize,
    name: Seq<char>,
    path: Seq<char>,
    failed: bool,
    diff: Option<Seq<char>>,
)
    requires
        t.wf(),
        0 <= k < t.calls.len(),
        t.calls[k].1 == CallView::Entry(i),
        t.entries[i as int] is Tool,
    ensures
        ({
            let u = t.tool_end(t.calls[k].0, name, path, failed, diff);
            let e = u.entries[i as int];
            &&& u.calls == t.calls.remove(k)
            &&& u.entries.len() == t.entries.len()
            &&& forall|j: int|
                0 <= j < t.entries.len() && j != i ==> #[trigger] u.entries[j] == t.entries[j]
            &&& e is Tool
            &&& e->Tool_0 == t.entries[i as int]->Tool_0
            &&& e->Tool_1 == t.entries[i as int]->Tool_1
            &&& !e->Tool_2
            &&& e->Tool_3 == failed
            &&& u.reads == t.reads && u.commands == t.commands
        }),
{
    let id = t.calls[k].0;
    lemma_name_index(t.calls, id);
    let n = name_index(names_of(t.calls), id)->0;
    if n < k {
        assert(t.calls[n].0 != t.calls[k].0);
    } else if k < n {
        assert(t.calls[k].0 != t.calls[n].0);
    }
    assert(t.calls[k].1 matches CallView::Entry(j) ==> j < t.entries.len());
}

/// A read or a shell command that ended well is counted, one more; one that
/// failed is not, and is listed as failed.
pub proof fn law_only_good_ends_are_counted(
    t: TimelineView,
    id: Seq<char>,
    path: Seq<char>,
    diff: Option<Seq<char>>,
)
    requires
        name_index(names_of(t.calls), id) is None,
        t.reads < usize::MAX,
        t.commands < usize::MAX,
    ensures
        t.tool_end(id, "read"@, path, false, diff).reads == t.reads + 1,
        t.tool_end(id, "read"@, path, false, diff).entries == t.entries,
        t.tool_end(id, "read"@, path, true, diff).reads == t.reads,
        t.tool_end(id, "read"@, path, true, diff).entries == t.entries.push(
            EntryView::Failure("read"@, safe_of(path)),
        ),
        t.tool_end(id, "bash"@, path, false, diff).commands == t.commands + 1,
        t.tool_end(id, "bash"@, path, false, diff).entries == t.entries,
        t.tool_end(id, "bash"@, path, true, diff).commands == t.commands,
        t.tool_end(id, "bash"@, path, true, diff).entries.len() == t.entries.len() + 1,
        t.tool_end(id, "read"@, path, false, diff).latest_read == Some(safe_of(path)),
{
    reveal_strlit("read");
    reveal_strlit("bash");
    assert("read"@[0] == 'r' && "bash"@[0] == 'b');
}

/// A call that was started as a read, or as a shell command, is counted as
/// such when it ends well.
pub proof fn law_started_calls_are_counted(
    t: TimelineView,
    k: int,
    name: Seq<char>,
    path: Seq<char>,
)
    requires
        t.wf(),
        0 <= k < t.calls.len(),
        t.reads < usize::MAX,
        t.commands < usize::MAX,
    ensures
        ({
            let u = t.tool_end(t.calls[k].0, name, path, false, None);
            &&& t.calls[k].1 is Read ==> u.reads == t.reads + 1 && u.commands == t.commands
            &&& t.calls[k].1 is Read && t.active_reads > 0 ==> u.active_reads == t.active_reads - 1
            &&& t.calls[k].1 is Bash ==> u.commands == t.commands + 1 && u.reads == t.reads
        }),
{
    let id = t.calls[k].0;
    lemma_name_index(t.calls, id);
    let n = name_index(names_of(t.calls), id)->0;
    if n < k {
        assert(t.calls[n].0 != t.calls[k].0);
    } else if k < n {
        assert(t.calls[k].0 != t.calls[n].0);
    }
}

/// The diff of an edit is shown from its first line on, and what is not shown
/// of it is counted.
pub proof fn law_diffs_are_shown_and_counted(
    tool: Seq<char>,
    path: Seq<char>,
    shown: Seq<Seq<char>>,
    omitted: usize,
    diff: Seq<char>,
)
    requires
        lines(diff).len() <= usize::MAX,
    ensures
        ({
            let e = closed_entry(
                EntryView::Tool(tool, path, true, false, shown, omitted),
                "edit"@,
                false,
                Some(diff),
            );
            &&& e is Tool
            &&& e->Tool_4.len() + e->Tool_5 == lines(diff).len()
            &&& e->Tool_5 > 0 ==> e->Tool_4.len() == 40
            &&& forall|i: int|
                0 <= i < e->Tool_4.len() ==> #[trigger] e->Tool_4[i] == safe_diff_line_of(
                    lines(diff)[i],
                )
        }),
{
}

/// Every entry has lines of its own, below those of all earlier ones.
pub proof fn law_every_entry_is_shown(entries: Seq<EntryView>, e: EntryView)
    ensures
        entries_lines(entries.push(e), entries.len() + 1) == entries_lines(
            entries,
            entries.len(),
        ) + entry_lines(e),
        entry_lines(e).len() > 0,
{
    lemma_entries_push(entries, e, entries.len());
}

proof fn lemma_entries_push(entries: Seq<EntryView>, e: EntryView, n: nat)
    requires
        n <= entries.len(),
    ensures
        entries_lines(entries.push(e), n) == entries_lines(entries, n),
    decreases n,
{
    if n > 0 {
        lemma_entries_push(entries, e, (n - 1) as nat);
    }
}

/// The first line of a call says whether it runs, failed or is done, and with
/// which tool and file; the lines of its diff follow, each once.
pub proof fn law_entries_say_how_it_went(
    name: Seq<char>,
    path: Seq<char>,
    running: bool,
    failed: bool,
    diff: Seq<Seq<char>>,
    omitted: usize,
)
    ensures
        ({
            let ls = entry_lines(EntryView::Tool(name, path, running, failed, diff, omitted));
            &&& ls[0] == "  · "@ + (if running {
                "◌"@
            } else if failed {
                "✗"@
            } else {
                "✓"@
            }) + " "@ + name + " · "@ + path + (if running {
                " …"@
            } else {
                ""@
            })
            &&& diff.len() == 0 ==> ls.len() == 1
            &&& diff.len() > 0 ==> forall|i: int|
                0 <= i < diff.len() ==> #[trigger] ls[i + 2] == "    "@ + diff[i]
            &&& diff.len() > 0 && omitted == 0 ==> ls.len() == diff.len() + 2
            &&& diff.len() > 0 && omitted > 0 ==> ls.len() == diff.len() + 3 && ls.last()
                == "  · … "@ + decimal(omitted as nat) + " more diff lines"@
        }),
{
}

/// How many files were read and how many commands were run is said as soon as
/// there is one, and which file was read last.
pub proof fn law_counts_are_said(t: TimelineView)
    ensures
        t.reads > 1 ==> summary_lines(t).contains(
            "  · ✓ Read · "@ + decimal(t.reads as nat) + " files"@,
        ),
        t.reads == 1 ==> summary_lines(t).contains("  · ✓ Read · "@ + decimal(1) + " file"@),
        t.commands > 1 ==> summary_lines(t).last() == "  · ✓ Bash · "@ + decimal(
            t.commands as nat,
        ) + " commands"@,
        t.commands == 1 ==> summary_lines(t).last() == "  · ✓ Bash · "@ + decimal(1)
            + " command"@,
        t.latest_read matches Some(path) ==> summary_lines(t).len() > 0 && ends(
            summary_lines(t)[0],
            path,
        ),
        t.latest_read is None && t.reads == 0 && t.commands == 0 ==> summary_lines(t).len() == 0,
{
    let k = if t.latest_read is Some {
        1int
    } else {
        0int
    };
    if t.reads > 0 {
        assert(summary_lines(t)[k] == summary_lines(t)[k]);
    }
    if t.latest_read is Some {
        let line = summary_lines(t)[0];
        let path = t.latest_read->0;
        assert(line.subrange(line.len() - path.len(), line.len() as int) =~= path);
    }
}

}
