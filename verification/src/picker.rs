//! Shared selection and viewport state for in-screen pickers. Models and saved
//! sessions provide their own labels and identifiers.
use crate::lines::texts;
use vstd::prelude::*;

verus! {

/// How many items are visible at most.
pub const MAX_VISIBLE: usize = 5;

pub struct Picker {
    pub title: String,
    pub items: Vec<String>,
    pub selected: usize,
    pub current: Option<usize>,
    pub first: usize,
}

/// How many of `count` items are visible on `rows` rows.
pub open spec fn visible_of(count: nat, rows: nat) -> nat {
    let most = if rows < 1 {
        1nat
    } else if rows > MAX_VISIBLE {
        MAX_VISIBLE as nat
    } else {
        rows
    };
    if count < most {
        count
    } else {
        most
    }
}

/// The first visible item, once the item `selected` is visible.
pub open spec fn first_of(count: nat, selected: nat, first: nat, rows: nat) -> nat {
    let visible = visible_of(count, rows);
    let moved = if selected < first {
        selected
    } else if selected >= first + visible {
        (selected + 1 - visible) as nat
    } else {
        first
    };
    if moved + visible > count {
        (count - visible) as nat
    } else {
        moved
    }
}

/// The item that is `step` away, within the list.
pub open spec fn moved_by(count: nat, selected: nat, step: int) -> nat {
    let target = selected + step;
    if target < 0 {
        0
    } else if target >= count {
        (count - 1) as nat
    } else {
        target as nat
    }
}

/// A distance as far as a counter reaches.
pub open spec fn saturated(n: int) -> int {
    if n > isize::MAX {
        isize::MAX as int
    } else if n < isize::MIN {
        isize::MIN as int
    } else {
        n
    }
}

/// What a [`Picker`] holds.
#[verifier::ext_equal]
pub struct PickerView {
    pub title: Seq<char>,
    pub items: Seq<Seq<char>>,
    pub selected: usize,
    pub current: Option<usize>,
    pub first: usize,
}

impl View for Picker {
    type V = PickerView;

    open spec fn view(&self) -> PickerView {
        PickerView {
            title: self.title@,
            items: texts(self.items@),
            selected: self.selected,
            current: self.current,
            first: self.first,
        }
    }
}

impl PickerView {
    /// The selection is an item, and what is visible begins within the list.
    pub open spec fn wf(self) -> bool {
        &&& self.items.len() <= usize::MAX
        &&& self.items.len() > 0 ==> self.selected < self.items.len()
        &&& self.items.len() == 0 ==> self.selected == 0 && self.first == 0
        &&& self.first <= self.items.len()
    }

    /// The selection is visible on `rows` rows.
    pub open spec fn shows_selection(self, rows: nat) -> bool {
        self.items.len() > 0 ==> self.first <= self.selected < self.first + visible_of(
            self.items.len(),
            rows,
        ) <= self.items.len()
    }

    /// The item `selected` is selected and visible.
    pub open spec fn at(self, selected: nat, rows: nat) -> PickerView {
        PickerView {
            selected: selected as usize,
            first: first_of(self.items.len(), selected, self.first as nat, rows) as usize,
            ..self
        }
    }

    /// The selection is moved, as far as the list goes.
    pub open spec fn moved(self, step: int, rows: nat) -> PickerView {
        if self.items.len() == 0 {
            self
        } else {
            self.at(moved_by(self.items.len(), self.selected as nat, step), rows)
        }
    }

    /// A list with the current item selected, where it has one.
    pub open spec fn opened(
        title: Seq<char>,
        items: Seq<Seq<char>>,
        current: Option<usize>,
        rows: nat,
    ) -> PickerView {
        PickerView { title, items, selected: 0, current, first: 0 }.at(
            match current {
                Some(index) => if index < items.len() {
                    index as nat
                } else {
                    0
                },
                None => 0,
            },
            rows,
        )
    }
}

impl Picker {
    /// A list with the current item selected, where it has one.
    pub fn new(title: String, items: Vec<String>, current: Option<usize>, rows: usize) -> (r: Self)
        ensures
            r@.wf(),
            r@.shows_selection(rows as nat),
            r@ == PickerView::opened(title@, texts(items@), current, rows as nat),
    {
        let selected: usize = match current {
            Some(index) => if index < items.len() {
                index
            } else {
                0
            },
            None => 0,
        };
        let mut picker = Picker { title, items, selected, current, first: 0 };
        picker.ensure_visible(rows);
        assert(picker@ =~= PickerView::opened(title@, texts(items@), current, rows as nat));
        picker
    }

    /// How many items are visible.
    pub fn visible(&self, rows: usize) -> (n: usize)
        ensures
            n == visible_of(self@.items.len(), rows as nat),
    {
        let most: usize = if rows < 1 {
            1
        } else if rows > MAX_VISIBLE {
            MAX_VISIBLE
        } else {
            rows
        };
        if self.items.len() < most {
            self.items.len()
        } else {
            most
        }
    }

    fn ensure_visible(&mut self, rows: usize)
        requires
            old(self).items@.len() > 0 ==> old(self).selected < old(self).items@.len(),
            old(self).items@.len() == 0 ==> old(self).selected == 0,
            old(self).first <= old(self).items@.len(),
        ensures
            final(self)@.wf(),
            final(self)@.shows_selection(rows as nat),
            final(self)@ == old(self)@.at(old(self).selected as nat, rows as nat),
    {
        let count: usize = self.items.len();
        let visible: usize = self.visible(rows);
        if self.selected < self.first {
            self.first = self.selected;
        } else if self.selected - self.first >= visible {
            self.first = self.selected - visible + 1;
        }
        if self.first > count - visible {
            self.first = count - visible;
        }
        assert(self@ =~= old(self)@.at(old(self).selected as nat, rows as nat));
    }

    /// Select the item `index`.
    pub fn select(&mut self, index: usize, rows: usize)
        requires
            old(self)@.wf(),
            index < old(self)@.items.len(),
        ensures
            final(self)@.wf(),
            final(self)@.shows_selection(rows as nat),
            final(self)@ == old(self)@.at(index as nat, rows as nat),
    {
        self.selected = index;
        self.ensure_visible(rows);
        assert(self@ =~= old(self)@.at(index as nat, rows as nat));
    }

    /// Move the selection, as far as the list goes.
    pub fn move_by(&mut self, step: isize, rows: usize)
        requires
            old(self)@.wf(),
        ensures
            final(self)@.wf(),
            final(self)@ == old(self)@.moved(step as int, rows as nat),
            final(self)@.items.len() > 0 ==> final(self)@.shows_selection(rows as nat),
    {
        if self.items.len() == 0 {
            return;
        }
        let last: usize = self.items.len() - 1;
        let target: usize = if step < 0 {
            let back: u64 = (0i128 - step as i128) as u64;
            if back >= self.selected as u64 {
                0
            } else {
                self.selected - back as usize
            }
        } else {
            let ahead: usize = step as usize;
            if ahead >= last - self.selected {
                last
            } else {
                self.selected + ahead
            }
        };
        self.select(target, rows);
    }

    /// Move the selection by pages.
    pub fn page(&mut self, step: isize, rows: usize)
        requires
            old(self)@.wf(),
        ensures
            final(self)@.wf(),
            final(self)@ == old(self)@.moved(
                saturated(step * visible_of(old(self)@.items.len(), rows as nat)),
                rows as nat,
            ),
    {
        let visible: usize = self.visible(rows);
        assert(-(5 * 0x8000_0000_0000_0000) <= step * visible <= 5 * 0x8000_0000_0000_0000)
            by (nonlinear_arith)
            requires
                -0x8000_0000_0000_0000 <= step <= 0x7fff_ffff_ffff_ffff,
                0 <= visible <= 5,
        ;
        let product: i128 = step as i128 * visible as i128;
        let distance: isize = if product > isize::MAX as i128 {
            isize::MAX
        } else if product < isize::MIN as i128 {
            isize::MIN
        } else {
            product as isize
        };
        self.move_by(distance, rows);
    }

    /// The row of the scroll bar's thumb.
    pub fn thumb(&self, rows: usize) -> (n: usize)
        requires
            self@.wf(),
        ensures
            n == thumb_of(self@.items.len(), self@.first as nat, rows as nat),
    {
        let visible: usize = self.visible(rows);
        if self.items.len() <= visible {
            return 0;
        }
        let span: usize = self.items.len() - visible;
        assert(self.first * (visible - 1) <= usize::MAX * 4) by (nonlinear_arith)
            requires
                0 <= self.first <= usize::MAX,
                1 <= visible <= 5,
        ;
        let scaled: u128 = self.first as u128 * (visible - 1) as u128;
        assert(scaled / (span as u128) <= usize::MAX) by (nonlinear_arith)
            requires
                scaled == self.first * (visible - 1),
                1 <= visible <= 5,
                span >= 1,
                self.first <= span + visible,
                span + visible <= usize::MAX,
        {
            assert(scaled <= (span + visible) * 4);
            assert((span + visible) * 4 <= 4 * span + 20);
            assert(scaled / (span as u128) <= 24);
        }
        (scaled / span as u128) as usize
    }
}

/// The row of the scroll bar's thumb.
pub open spec fn thumb_of(count: nat, first: nat, rows: nat) -> nat {
    let visible = visible_of(count, rows);
    if count <= visible {
        0
    } else {
        (first * (visible - 1) / (count - visible)) as nat
    }
}

// ---------------------------------------------------------------------------
// Laws
// ---------------------------------------------------------------------------

/// Wherever the selection moves, it stays an item of the list and stands
/// among the items that are visible.
pub proof fn law_selection_stays_visible(count: nat, selected: nat, first: nat, step: int, rows: nat)
    requires
        0 < count,
        selected < count,
        first <= count,
    ensures
        moved_by(count, selected, step) < count,
        ({
            let s = moved_by(count, selected, step);
            let f = first_of(count, s, first, rows);
            f <= s < f + visible_of(count, rows) <= count
        }),
        visible_of(count, rows) <= MAX_VISIBLE,
{
}

/// The selection moves by as many items as it says, and stops at the ends of
/// the list.
pub proof fn law_selection_moves_by_items(count: nat, selected: nat, step: int)
    requires
        selected < count,
    ensures
        0 <= selected + step < count ==> moved_by(count, selected, step) == selected + step,
        selected + step < 0 ==> moved_by(count, selected, step) == 0,
        selected + step >= count ==> moved_by(count, selected, step) == count - 1,
{
}

/// A list is scrolled only as far as needed: where the selection is visible
/// already, nothing moves.
pub proof fn law_lists_are_scrolled_as_needed(p: PickerView, selected: nat, rows: nat)
    requires
        p.wf(),
        selected < p.items.len(),
        p.first + visible_of(p.items.len(), rows) <= p.items.len(),
    ensures
        p.first <= selected < p.first + visible_of(p.items.len(), rows) ==> p.at(
            selected,
            rows,
        ).first == p.first,
        p.at(selected, rows).selected == selected,
        p.at(selected, rows).items == p.items,
{
}

/// Up to five items are visible, as many as there are rows and items, and
/// always one where there is one.
pub proof fn law_as_many_items_as_fit_are_visible(count: nat, rows: nat)
    ensures
        visible_of(count, rows) <= 5,
        visible_of(count, rows) <= count,
        rows > 0 ==> visible_of(count, rows) <= rows,
        count > 0 ==> visible_of(count, rows) > 0,
        count >= 5 && rows >= 5 ==> visible_of(count, rows) == 5,
        0 < rows <= 5 && rows <= count ==> visible_of(count, rows) == rows,
        count <= rows && count <= 5 ==> visible_of(count, rows) == count,
{
}

/// A list opens with the item in use selected, and else with its first.
pub proof fn law_lists_open_at_the_current_item(
    title: Seq<char>,
    items: Seq<Seq<char>>,
    current: Option<usize>,
    rows: nat,
)
    requires
        0 < items.len() <= usize::MAX,
    ensures
        ({
            let p = PickerView::opened(title, items, current, rows);
            &&& p.items == items
            &&& p.title == title
            &&& p.current == current
            &&& current is Some && current->0 < items.len() ==> p.selected == current->0
            &&& current is None ==> p.selected == 0
            &&& p.first <= p.selected < p.first + visible_of(items.len(), rows)
        }),
{
}

/// The thumb of the scroll bar is at the top of the list and at its end where
/// these are visible, and among the visible rows in between.
pub proof fn law_the_thumb_shows_the_place(count: nat, first: nat, rows: nat)
    requires
        count > visible_of(count, rows),
        first <= count - visible_of(count, rows),
    ensures
        first == 0 ==> thumb_of(count, first, rows) == 0,
        first == count - visible_of(count, rows) ==> thumb_of(count, first, rows) == visible_of(
            count,
            rows,
        ) - 1,
        thumb_of(count, first, rows) < visible_of(count, rows),
{
    let visible = visible_of(count, rows);
    let span = (count - visible) as int;
    let last = visible - 1;
    assert(0 * last / span == 0) by (nonlinear_arith)
        requires
            span > 0,
    ;
    assert(span * last / span == last) by (nonlinear_arith)
        requires
            span > 0,
    ;
    assert(first * last / span <= last) by (nonlinear_arith)
        requires
            span > 0,
            0 <= first <= span,
            last >= 0,
    ;
}

}
