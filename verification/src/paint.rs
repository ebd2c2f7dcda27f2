//! Row-diff terminal output. The view is built separately; then the least
//! change is written in one synchronized update, with the cursor parked.
use crate::lines::texts;
use crate::number::{decimal, decimal_text};
use crate::text::{cat4, cat5, contains, copy, occurs_at, same, starts};
use vstd::prelude::*;

verus! {

pub const SYNC_END: &'static str = "\x1b[?2026l";

pub const SYNC_BEGIN: &'static str = "\x1b[?2026h";

#[derive(Clone, Copy, Debug, PartialEq, Eq, Structural)]
pub struct Cursor {
    pub row: usize,
    pub column: usize,
    pub visible: bool,
}

pub struct Painter {
    /// The rows that the terminal shows.
    pub lines: Vec<String>,
    pub dimensions: Option<(usize, usize)>,
    pub cursor: Option<Cursor>,
    pub synchronized: bool,
}

/// What a [`Painter`] holds.
#[verifier::ext_equal]
pub struct PainterView {
    pub lines: Seq<Seq<char>>,
    pub dimensions: Option<(usize, usize)>,
    pub cursor: Option<Cursor>,
    pub synchronized: bool,
}

impl View for Painter {
    type V = PainterView;

    open spec fn view(&self) -> PainterView {
        PainterView {
            lines: texts(self.lines@),
            dimensions: self.dimensions,
            cursor: self.cursor,
            synchronized: self.synchronized,
        }
    }
}

impl PainterView {
    /// Nothing is known of what the terminal shows.
    pub open spec fn unknown(self) -> PainterView {
        PainterView { lines: Seq::empty(), dimensions: None, cursor: None, ..self }
    }

    /// The row `i` must be written.
    pub open spec fn stale(self, lines: Seq<Seq<char>>, dimensions: (usize, usize), i: int) -> bool {
        self.dimensions != Some(dimensions) || i >= self.lines.len() || self.lines[i] != lines[i]
    }

    /// What writes the first `n` rows, as far as they must be written.
    pub open spec fn repaint(
        self,
        lines: Seq<Seq<char>>,
        dimensions: (usize, usize),
        n: nat,
    ) -> Seq<char>
        decreases n,
    {
        if n == 0 {
            ""@
        } else {
            let before = self.repaint(lines, dimensions, (n - 1) as nat);
            if self.stale(lines, dimensions, n - 1) {
                before + ("\x1b["@ + decimal(n) + ";1H"@ + lines[n - 1])
            } else {
                before
            }
        }
    }

    /// The terminal shows just this already.
    pub open spec fn current(
        self,
        lines: Seq<Seq<char>>,
        dimensions: (usize, usize),
        cursor: Cursor,
    ) -> bool {
        self.cursor == Some(cursor) && forall|i: int|
            0 <= i < lines.len() ==> !#[trigger] self.stale(lines, dimensions, i)
    }

    /// What brings the terminal to this view. The cursor is shown or hidden
    /// only where that changes.
    pub open spec fn frame(
        self,
        lines: Seq<Seq<char>>,
        dimensions: (usize, usize),
        cursor: Cursor,
    ) -> Seq<char> {
        (if self.synchronized {
            SYNC_BEGIN@
        } else {
            ""@
        }) + (if !cursor.visible && (self.cursor is None || self.cursor->0.visible) {
            "\x1b[?25l"@
        } else {
            ""@
        }) + self.repaint(lines, dimensions, lines.len()) + ("\x1b["@ + decimal(cursor.row as nat)
            + ";"@ + decimal(cursor.column as nat) + "H"@) + (if cursor.visible && (self.cursor is None
            || !self.cursor->0.visible) {
            "\x1b[?25h"@
        } else {
            ""@
        }) + (if self.synchronized {
            SYNC_END@
        } else {
            ""@
        })
    }
}

impl Painter {
    pub fn new(synchronized: bool) -> (r: Self)
        ensures
            r@ == (PainterView {
                lines: Seq::empty(),
                dimensions: None,
                cursor: None,
                synchronized,
            }),
    {
        let r = Painter { lines: Vec::new(), dimensions: None, cursor: None, synchronized };
        assert(r@.lines =~= Seq::empty());
        r
    }

    /// Forget what the terminal shows.
    pub fn invalidate(&mut self)
        ensures
            final(self)@ == old(self)@.unknown(),
    {
        self.lines.clear();
        self.dimensions = None;
        self.cursor = None;
        assert(self@ =~= old(self)@.unknown());
    }

    pub fn resized(&self, dimensions: (usize, usize)) -> (r: bool)
        ensures
            r == (self@.dimensions != Some(dimensions)),
    {
        match self.dimensions {
            Some((columns, rows)) => columns != dimensions.0 || rows != dimensions.1,
            None => true,
        }
    }

    fn is_stale(&self, lines: &Vec<String>, dimensions: (usize, usize), i: usize) -> (r: bool)
        requires
            i < lines@.len(),
        ensures
            r == self@.stale(texts(lines@), dimensions, i as int),
    {
        if self.resized(dimensions) || i >= self.lines.len() {
            return true;
        }
        !same(self.lines[i].as_str(), lines[i].as_str())
    }

    fn hides(&self) -> (r: bool)
        ensures
            r == (self@.cursor is None || self@.cursor->0.visible),
    {
        match self.cursor {
            Some(old) => old.visible,
            None => true,
        }
    }

    fn reveals(&self) -> (r: bool)
        ensures
            r == (self@.cursor is None || !self@.cursor->0.visible),
    {
        match self.cursor {
            Some(old) => !old.visible,
            None => true,
        }
    }

    /// What must be written to show this view; nothing, where it is shown.
    pub fn frame(&self, lines: &Vec<String>, dimensions: (usize, usize), cursor: Cursor) -> (r: Option<
        String,
    >)
        ensures
            match r {
                Some(frame) => !self@.current(texts(lines@), dimensions, cursor) && frame@
                    == self@.frame(texts(lines@), dimensions, cursor),
                None => self@.current(texts(lines@), dimensions, cursor),
            },
    {
        let ghost all = texts(lines@);
        let mut changed = false;
        let mut rows = copy("");
        let mut i: usize = 0;
        while i < lines.len()
            invariant
                i <= lines@.len(),
                all == texts(lines@),
                rows@ == self@.repaint(all, dimensions, i as nat),
                !changed ==> forall|j: int|
                    0 <= j < i ==> !#[trigger] self@.stale(all, dimensions, j),
                changed ==> exists|j: int|
                    0 <= j < i && #[trigger] self@.stale(all, dimensions, j),
            decreases lines@.len() - i,
        {
            if self.is_stale(lines, dimensions, i) {
                assert(self@.stale(all, dimensions, i as int));
                changed = true;
                let row = decimal_text(i as u64 + 1);
                rows.append(cat4("\x1b[", row.as_str(), ";1H", lines[i].as_str()).as_str());
            }
            i = i + 1;
        }
        let moved = match self.cursor {
            Some(old) => old != cursor,
            None => true,
        };
        if !changed && !moved {
            return None;
        }
        let mut frame = copy(
            if self.synchronized {
                SYNC_BEGIN
            } else {
                ""
            },
        );
        frame.append(
            if !cursor.visible && self.hides() {
                "\x1b[?25l"
            } else {
                ""
            },
        );
        frame.append(rows.as_str());
        frame.append(
            cat5(
                "\x1b[",
                decimal_text(cursor.row as u64).as_str(),
                ";",
                decimal_text(cursor.column as u64).as_str(),
                "H",
            ).as_str(),
        );
        frame.append(
            if cursor.visible && self.reveals() {
                "\x1b[?25h"
            } else {
                ""
            },
        );
        frame.append(
            if self.synchronized {
                SYNC_END
            } else {
                ""
            },
        );
        Some(frame)
    }

    /// The view was written.
    pub fn painted(&mut self, lines: Vec<String>, dimensions: (usize, usize), cursor: Cursor)
        ensures
            final(self)@ == (PainterView {
                lines: texts(lines@),
                dimensions: Some(dimensions),
                cursor: Some(cursor),
                ..old(self)@
            }),
    {
        self.lines = lines;
        self.dimensions = Some(dimensions);
        self.cursor = Some(cursor);
        assert(self@ =~= (PainterView {
            lines: texts(lines@),
            dimensions: Some(dimensions),
            cursor: Some(cursor),
            ..old(self)@
        }));
    }

    /// Writing failed: nothing is known any longer, and a synchronized update
    /// that was begun must be ended with this.
    pub fn failed(&mut self) -> (release: &'static str)
        ensures
            final(self)@ == old(self)@.unknown(),
            release@ == if old(self)@.synchronized {
                SYNC_END@
            } else {
                ""@
            },
    {
        self.invalidate();
        if self.synchronized {
            SYNC_END
        } else {
            ""
        }
    }
}

// ---------------------------------------------------------------------------
// Laws
// ---------------------------------------------------------------------------

/// What was painted is not painted again.
pub proof fn law_repeated_view_writes_nothing(
    p: PainterView,
    lines: Seq<Seq<char>>,
    dimensions: (usize, usize),
    cursor: Cursor,
)
    ensures
        (PainterView { lines, dimensions: Some(dimensions), cursor: Some(cursor), ..p }).current(
            lines,
            dimensions,
            cursor,
        ),
{
}

/// After a failure, a resize or an invalidation every row is written.
pub proof fn law_unknown_terminal_is_repainted(
    p: PainterView,
    lines: Seq<Seq<char>>,
    dimensions: (usize, usize),
    i: int,
)
    requires
        0 <= i < lines.len(),
    ensures
        p.unknown().stale(lines, dimensions, i),
{
}

proof fn lemma_repaint_one(
    p: PainterView,
    lines: Seq<Seq<char>>,
    dimensions: (usize, usize),
    n: nat,
    k: int,
)
    requires
        n <= lines.len(),
        forall|i: int| 0 <= i < n && i != k ==> !#[trigger] p.stale(lines, dimensions, i),
    ensures
        p.repaint(lines, dimensions, n) == if 0 <= k < n && p.stale(lines, dimensions, k) {
            "\x1b["@ + decimal((k + 1) as nat) + ";1H"@ + lines[k]
        } else {
            ""@
        },
    decreases n,
{
    reveal_strlit("");
    if n > 0 {
        lemma_repaint_one(p, lines, dimensions, (n - 1) as nat, k);
        if k == n - 1 && p.stale(lines, dimensions, k) {
            assert(""@ + ("\x1b["@ + decimal(n) + ";1H"@ + lines[n - 1]) =~= "\x1b["@ + decimal(n)
                + ";1H"@ + lines[n - 1]);
        }
    }
}

/// Where a single row changed, only that row is written.
pub proof fn law_only_changed_rows_are_written(
    p: PainterView,
    lines: Seq<Seq<char>>,
    dimensions: (usize, usize),
    k: int,
)
    requires
        0 <= k < lines.len(),
        p.stale(lines, dimensions, k),
        forall|i: int| 0 <= i < lines.len() && i != k ==> !#[trigger] p.stale(lines, dimensions, i),
    ensures
        p.repaint(lines, dimensions, lines.len()) == "\x1b["@ + decimal((k + 1) as nat) + ";1H"@
            + lines[k],
{
    lemma_repaint_one(p, lines, dimensions, lines.len(), k);
}

proof fn lemma_repaint_grows(
    p: PainterView,
    lines: Seq<Seq<char>>,
    dimensions: (usize, usize),
    k: nat,
    n: nat,
)
    requires
        k <= n,
    ensures
        starts(p.repaint(lines, dimensions, n), p.repaint(lines, dimensions, k)),
    decreases n,
{
    let part = p.repaint(lines, dimensions, k);
    let all = p.repaint(lines, dimensions, n);
    if k == n {
        assert(all.subrange(0, part.len() as int) =~= part);
    } else {
        lemma_repaint_grows(p, lines, dimensions, k, (n - 1) as nat);
        let before = p.repaint(lines, dimensions, (n - 1) as nat);
        assert(before.subrange(0, part.len() as int) == part);
        assert(all.subrange(0, part.len() as int) =~= before.subrange(0, part.len() as int));
    }
}

/// Every row that differs from what the terminal shows is written, at its own
/// place.
pub proof fn law_changed_rows_are_written(
    p: PainterView,
    lines: Seq<Seq<char>>,
    dimensions: (usize, usize),
    cursor: Cursor,
    k: int,
)
    requires
        0 <= k < lines.len(),
        p.lines.len() == lines.len(),
        p.lines[k] != lines[k],
    ensures
        contains(
            p.frame(lines, dimensions, cursor),
            "\x1b["@ + decimal((k + 1) as nat) + ";1H"@ + lines[k],
        ),
{
    let written = "\x1b["@ + decimal((k + 1) as nat) + ";1H"@ + lines[k];
    let before = p.repaint(lines, dimensions, k as nat);
    let part = p.repaint(lines, dimensions, (k + 1) as nat);
    let all = p.repaint(lines, dimensions, lines.len());
    assert(p.stale(lines, dimensions, k));
    assert(part == before + written);
    lemma_repaint_grows(p, lines, dimensions, (k + 1) as nat, lines.len());
    let a = before.len() as int;
    assert(all.subrange(0, part.len() as int) == part);
    assert(all.subrange(a, a + written.len()) =~= part.subrange(a, a + written.len()));
    assert(part.subrange(a, a + written.len()) =~= written);
    let frame = p.frame(lines, dimensions, cursor);
    let head = (if p.synchronized {
        SYNC_BEGIN@
    } else {
        ""@
    }) + (if !cursor.visible && (p.cursor is None || p.cursor->0.visible) {
        "\x1b[?25l"@
    } else {
        ""@
    });
    let at = head.len() + a;
    assert(frame.subrange(at, at + written.len()) =~= all.subrange(a, a + written.len()));
    assert(occurs_at(frame, written, at));
}

/// Where no row changed, only the cursor is moved to its place; it is shown or
/// hidden only where that changes.
pub proof fn law_the_cursor_is_placed(
    p: PainterView,
    lines: Seq<Seq<char>>,
    dimensions: (usize, usize),
    cursor: Cursor,
)
    requires
        !p.synchronized,
        p.dimensions == Some(dimensions),
        p.lines == lines,
        p.cursor is Some,
    ensures
        p.cursor->0.visible == cursor.visible ==> p.frame(lines, dimensions, cursor) == "\x1b["@
            + decimal(cursor.row as nat) + ";"@ + decimal(cursor.column as nat) + "H"@,
        !p.cursor->0.visible && cursor.visible ==> p.frame(lines, dimensions, cursor) == "\x1b["@
            + decimal(cursor.row as nat) + ";"@ + decimal(cursor.column as nat) + "H"@
            + "\x1b[?25h"@,
        p.cursor->0.visible && !cursor.visible ==> p.frame(lines, dimensions, cursor)
            == "\x1b[?25l"@ + ("\x1b["@ + decimal(cursor.row as nat) + ";"@ + decimal(
            cursor.column as nat,
        ) + "H"@),
{
    reveal_strlit("");
    lemma_nothing_to_repaint(p, lines, dimensions, lines.len());
    let place = "\x1b["@ + decimal(cursor.row as nat) + ";"@ + decimal(cursor.column as nat) + "H"@;
    let frame = p.frame(lines, dimensions, cursor);
    if p.cursor->0.visible == cursor.visible {
        assert(frame =~= place);
    } else if cursor.visible {
        assert(frame =~= place + "\x1b[?25h"@);
    } else {
        assert(frame =~= "\x1b[?25l"@ + place);
    }
}

proof fn lemma_nothing_to_repaint(
    p: PainterView,
    lines: Seq<Seq<char>>,
    dimensions: (usize, usize),
    n: nat,
)
    requires
        n <= lines.len(),
        p.dimensions == Some(dimensions),
        p.lines == lines,
    ensures
        p.repaint(lines, dimensions, n) == ""@,
    decreases n,
{
    if n > 0 {
        lemma_nothing_to_repaint(p, lines, dimensions, (n - 1) as nat);
    }
}

}
