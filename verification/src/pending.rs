//! Messages that wait for delivery, as they are shown above the composer.
use crate::json::{Json, Tree};
use crate::queue::{DraftSubmission, DraftView, QueueMode};
use crate::text::{copy, same};
use vstd::prelude::*;

verus! {

/// How many deliveries without an answer are remembered.
pub const MAX_DELIVERED: usize = 16;

/// A message that waits.
pub struct PendingItem {
    pub text: String,
    pub mode: QueueMode,
    pub images: usize,
    /// Whether Pi has accepted it.
    pub accepted: bool,
    /// Whether it has left Pi's queue and is being delivered.
    pub sending: bool,
}

/// What a [`PendingItem`] holds.
#[verifier::ext_equal]
pub struct ItemView {
    pub text: Seq<char>,
    pub mode: QueueMode,
    pub images: usize,
    pub accepted: bool,
    pub sending: bool,
}

impl View for PendingItem {
    type V = ItemView;

    open spec fn view(&self) -> ItemView {
        ItemView {
            text: self.text@,
            mode: self.mode,
            images: self.images,
            accepted: self.accepted,
            sending: self.sending,
        }
    }
}

pub open spec fn item_views(items: Seq<PendingItem>) -> Seq<ItemView> {
    Seq::new(items.len(), |i: int| items[i]@)
}

/// The messages that wait.
pub struct Pending {
    pub steering: usize,
    pub follow_up: usize,
    pub items: Vec<PendingItem>,
    /// Texts that were delivered before Pi had accepted them.
    pub delivered: Vec<String>,
    /// The message that began the turn.
    pub initial: Option<String>,
}

/// What a [`Pending`] holds.
#[verifier::ext_equal]
pub struct PendingView {
    pub steering: usize,
    pub follow_up: usize,
    pub items: Seq<ItemView>,
    pub delivered: Seq<Seq<char>>,
    pub initial: Option<Seq<char>>,
}

impl View for Pending {
    type V = PendingView;

    open spec fn view(&self) -> PendingView {
        PendingView {
            steering: self.steering,
            follow_up: self.follow_up,
            items: item_views(self.items@),
            delivered: crate::lines::texts(self.delivered@),
            initial: crate::error::text_view(self.initial),
        }
    }
}

/// The first item from `i` on with a text that is being delivered.
pub open spec fn sending_from(items: Seq<ItemView>, text: Seq<char>, i: int) -> Option<int>
    decreases items.len() - i,
{
    if i < 0 || i >= items.len() {
        None
    } else if items[i].text == text && items[i].sending {
        Some(i)
    } else {
        sending_from(items, text, i + 1)
    }
}

/// The first item from `i` on with a text.
pub open spec fn text_from(items: Seq<ItemView>, text: Seq<char>, i: int) -> Option<int>
    decreases items.len() - i,
{
    if i < 0 || i >= items.len() {
        None
    } else if items[i].text == text {
        Some(i)
    } else {
        text_from(items, text, i + 1)
    }
}

/// The first item from `i` on that a submission is about and that was not
/// accepted.
pub open spec fn open_from(items: Seq<ItemView>, d: DraftView, i: int) -> Option<int>
    decreases items.len() - i,
{
    if i < 0 || i >= items.len() {
        None
    } else if items[i].text == d.text && items[i].mode == d.mode && !items[i].accepted {
        Some(i)
    } else {
        open_from(items, d, i + 1)
    }
}

/// The last item before `n` with a mode and a text that is not being
/// delivered.
pub open spec fn waiting_before(
    items: Seq<ItemView>,
    mode: QueueMode,
    text: Seq<char>,
    n: int,
) -> Option<int>
    decreases n,
{
    if n <= 0 || n > items.len() {
        None
    } else if items[n - 1].mode == mode && items[n - 1].text == text && !items[n - 1].sending {
        Some(n - 1)
    } else {
        waiting_before(items, mode, text, n - 1)
    }
}

/// The place of a text among some texts.
pub open spec fn place_from(texts: Seq<Seq<char>>, text: Seq<char>, i: int) -> Option<int>
    decreases texts.len() - i,
{
    if i < 0 || i >= texts.len() {
        None
    } else if texts[i] == text {
        Some(i)
    } else {
        place_from(texts, text, i + 1)
    }
}

/// The texts of a list.
pub open spec fn list_texts(list: Seq<Tree>, n: nat) -> Seq<Seq<char>>
    decreases n,
{
    if n == 0 {
        Seq::empty()
    } else {
        let rest = list_texts(list, (n - 1) as nat);
        match list[n - 1].text() {
            Some(text) => rest.push(text),
            None => rest,
        }
    }
}

/// The texts of a field, where it is a list.
pub open spec fn field_texts(e: Tree, key: Seq<char>) -> Seq<Seq<char>> {
    match e.at(key).list() {
        Some(list) => list_texts(list, list.len()),
        None => Seq::empty(),
    }
}

/// How long the list of a field is.
pub open spec fn field_len(e: Tree, key: Seq<char>) -> nat {
    match e.at(key).list() {
        Some(list) => list.len(),
        None => 0,
    }
}

/// A message that Pi holds and of which nothing else is known.
pub open spec fn fresh(text: Seq<char>, mode: QueueMode) -> ItemView {
    ItemView { text, mode, images: 0, accepted: false, sending: false }
}

/// The items that stand for `messages`, and those that are left. Of equal
/// items the newest are kept, as the oldest are delivered first.
pub open spec fn matched(old: Seq<ItemView>, messages: Seq<Seq<char>>, mode: QueueMode) -> (
    Seq<ItemView>,
    Seq<ItemView>,
)
    decreases messages.len(),
{
    if messages.len() == 0 {
        (old, Seq::empty())
    } else {
        let text = messages.last();
        let (left, item) = match waiting_before(old, mode, text, old.len() as int) {
            Some(i) => (old.remove(i), ItemView { sending: false, ..old[i] }),
            None => (old, fresh(text, mode)),
        };
        let (rest, kept) = matched(left, messages.drop_last(), mode);
        (rest, kept.push(item))
    }
}

/// The items as being delivered.
pub open spec fn leaving(items: Seq<ItemView>) -> Seq<ItemView> {
    Seq::new(items.len(), |i: int| ItemView { sending: true, ..items[i] })
}

impl PendingView {
    /// Nothing waits.
    pub open spec fn fresh() -> PendingView {
        PendingView {
            steering: 0,
            follow_up: 0,
            items: Seq::empty(),
            delivered: Seq::empty(),
            initial: None,
        }
    }

    pub open spec fn cleared(self) -> PendingView {
        PendingView {
            steering: 0,
            follow_up: 0,
            items: Seq::empty(),
            delivered: Seq::empty(),
            ..self
        }
    }

    /// Pi has accepted a submission.
    pub open spec fn queued(self, d: DraftView) -> PendingView {
        match place_from(self.delivered, d.text, 0) {
            Some(i) => PendingView { delivered: self.delivered.remove(i), ..self },
            None => match open_from(self.items, d, 0) {
                Some(i) => PendingView {
                    items: self.items.update(
                        i,
                        ItemView {
                            accepted: true,
                            images: d.images.len() as usize,
                            ..self.items[i]
                        },
                    ),
                    ..self
                },
                None => PendingView {
                    items: self.items.push(
                        ItemView {
                            text: d.text,
                            mode: d.mode,
                            images: d.images.len() as usize,
                            accepted: true,
                            sending: false,
                        },
                    ),
                    ..self
                },
            },
        }
    }

    /// The item that a delivered text was: one that is being delivered, else
    /// any.
    pub open spec fn source(self, text: Seq<char>) -> Option<int> {
        match sending_from(self.items, text, 0) {
            Some(i) => Some(i),
            None => text_from(self.items, text, 0),
        }
    }

    /// Pi has delivered a message; whether it is not the one that began the
    /// turn.
    pub open spec fn received(self, text: Seq<char>) -> (PendingView, bool) {
        if self.initial == Some(text) {
            (PendingView { initial: None, ..self }, false)
        } else {
            let (items, open) = match self.source(text) {
                Some(i) => (self.items.remove(i), !self.items[i].accepted),
                None => (self.items, true),
            };
            let delivered = if open && text.len() > 0 {
                let all = self.delivered.push(text);
                if all.len() > MAX_DELIVERED {
                    all.remove(0)
                } else {
                    all
                }
            } else {
                self.delivered
            };
            (PendingView { items, delivered, ..self }, true)
        }
    }

    /// A submission was turned down.
    pub open spec fn rejected(self, d: DraftView) -> PendingView {
        match open_from(self.items, d, 0) {
            Some(i) => PendingView { items: self.items.remove(i), ..self },
            None => self,
        }
    }

    /// Pi says what it holds back.
    pub open spec fn updated(self, e: Tree) -> PendingView {
        let (left, steering) = matched(
            self.items,
            field_texts(e, "steering"@),
            QueueMode::Steer,
        );
        let (rest, later) = matched(left, field_texts(e, "followUp"@), QueueMode::FollowUp);
        PendingView {
            steering: field_len(e, "steering"@) as usize,
            follow_up: field_len(e, "followUp"@) as usize,
            items: steering + later + leaving(rest),
            ..self
        }
    }
}

fn share(item: &PendingItem) -> (r: PendingItem)
    ensures
        r@ == item@,
{
    PendingItem {
        text: copy(item.text.as_str()),
        mode: item.mode,
        images: item.images,
        accepted: item.accepted,
        sending: item.sending,
    }
}

fn find_open(items: &Vec<PendingItem>, text: &str, mode: QueueMode, Ghost(d): Ghost<DraftView>) -> (r: Option<
    usize,
>)
    requires
        d.text == text@,
        d.mode == mode,
    ensures
        match r {
            Some(i) => i < items@.len() && open_from(item_views(items@), d, 0) == Some(i as int),
            None => open_from(item_views(items@), d, 0) is None,
        },
{
    let mut i: usize = 0;
    while i < items.len()
        invariant
            i <= items@.len(),
            d.text == text@,
            d.mode == mode,
            open_from(item_views(items@), d, 0) == open_from(item_views(items@), d, i as int),
        decreases items@.len() - i,
    {
        if same(items[i].text.as_str(), text) && items[i].mode == mode && !items[i].accepted {
            return Some(i);
        }
        i = i + 1;
    }
    None
}

fn find_source(items: &Vec<PendingItem>, text: &str, sending: bool) -> (r: Option<usize>)
    ensures
        match r {
            Some(i) => i < items@.len() && (if sending {
                sending_from(item_views(items@), text@, 0)
            } else {
                text_from(item_views(items@), text@, 0)
            }) == Some(i as int),
            None => (if sending {
                sending_from(item_views(items@), text@, 0)
            } else {
                text_from(item_views(items@), text@, 0)
            }) is None,
        },
{
    let ghost all = item_views(items@);
    let mut i: usize = 0;
    while i < items.len()
        invariant
            i <= items@.len(),
            all == item_views(items@),
            sending ==> sending_from(all, text@, 0) == sending_from(all, text@, i as int),
            !sending ==> text_from(all, text@, 0) == text_from(all, text@, i as int),
        decreases items@.len() - i,
    {
        if same(items[i].text.as_str(), text) && (!sending || items[i].sending) {
            return Some(i);
        }
        i = i + 1;
    }
    None
}

fn find_waiting(items: &Vec<PendingItem>, mode: QueueMode, text: &str) -> (r: Option<usize>)
    ensures
        match r {
            Some(i) => i < items@.len() && waiting_before(
                item_views(items@),
                mode,
                text@,
                items@.len() as int,
            ) == Some(i as int),
            None => waiting_before(item_views(items@), mode, text@, items@.len() as int) is None,
        },
{
    let mut n: usize = items.len();
    while n > 0
        invariant
            n <= items@.len(),
            waiting_before(item_views(items@), mode, text@, items@.len() as int) == waiting_before(
                item_views(items@),
                mode,
                text@,
                n as int,
            ),
        decreases n,
    {
        let item = &items[n - 1];
        if item.mode == mode && same(item.text.as_str(), text) && !item.sending {
            return Some(n - 1);
        }
        n = n - 1;
    }
    None
}

fn find_text(texts: &Vec<String>, text: &str) -> (r: Option<usize>)
    ensures
        match r {
            Some(i) => i < texts@.len() && place_from(crate::lines::texts(texts@), text@, 0)
                == Some(i as int),
            None => place_from(crate::lines::texts(texts@), text@, 0) is None,
        },
{
    let ghost all = crate::lines::texts(texts@);
    let mut i: usize = 0;
    while i < texts.len()
        invariant
            i <= texts@.len(),
            all == crate::lines::texts(texts@),
            place_from(all, text@, 0) == place_from(all, text@, i as int),
        decreases texts@.len() - i,
    {
        if same(texts[i].as_str(), text) {
            return Some(i);
        }
        i = i + 1;
    }
    None
}

fn texts_at(event: &Json, key: &str) -> (r: (Vec<String>, usize))
    ensures
        crate::lines::texts(r.0@) == field_texts(event@, key@),
        r.1 == field_len(event@, key@),
{
    let mut out: Vec<String> = Vec::new();
    assert(crate::lines::texts(out@) =~= Seq::empty());
    match event.at(key).as_list() {
        None => (out, 0),
        Some(list) => {
            let ghost trees = event@.at(key@).list()->0;
            let mut i: usize = 0;
            while i < list.len()
                invariant
                    i <= list@.len(),
                    trees.len() == list@.len(),
                    forall|j: int| 0 <= j < list@.len() ==> (#[trigger] list@[j])@ == trees[j],
                    crate::lines::texts(out@) == list_texts(trees, i as nat),
                decreases list@.len() - i,
            {
                assert(list@[i as int]@ == trees[i as int]);
                if let Some(text) = list[i].as_text() {
                    let line = copy(text);
                    proof {
                        crate::lines::lemma_texts_push(out@, line);
                    }
                    out.push(line);
                }
                i = i + 1;
            }
            (out, list.len())
        },
    }
}

/// Take the items that stand for `messages` out of `left`.
fn take_matching(left: &mut Vec<PendingItem>, messages: &Vec<String>, mode: QueueMode) -> (kept: Vec<
    PendingItem,
>)
    ensures
        (item_views(final(left)@), item_views(kept@)) == matched(
            item_views(old(left)@),
            crate::lines::texts(messages@),
            mode,
        ),
{
    let ghost all = crate::lines::texts(messages@);
    let ghost start = item_views(left@);
    let mut backwards: Vec<PendingItem> = Vec::new();
    let mut n: usize = messages.len();
    assert(all.take(n as int) =~= all);
    assert(reversed(item_views(backwards@)) =~= Seq::empty());
    assert(matched(start, all, mode).1 + reversed(item_views(backwards@)) =~= matched(
        start,
        all,
        mode,
    ).1);
    while n > 0
        invariant
            n <= messages@.len(),
            all == crate::lines::texts(messages@),
            matched(start, all, mode).0 == matched(item_views(left@), all.take(n as int), mode).0,
            matched(start, all, mode).1 =~= matched(
                item_views(left@),
                all.take(n as int),
                mode,
            ).1 + reversed(item_views(backwards@)),
        decreases n,
    {
        let text = messages[n - 1].as_str();
        let ghost before = item_views(left@);
        let ghost part = all.take(n as int);
        let ghost tail = reversed(item_views(backwards@));
        proof {
            assert(part.last() == text@);
            assert(part.drop_last() =~= all.take(n - 1));
        }
        let mut item = match find_waiting(left, mode, text) {
            Some(i) => {
                let item = left.remove(i);
                assert(item_views(left@) =~= before.remove(i as int));
                item
            },
            None => PendingItem { text: copy(text), mode, images: 0, accepted: false, sending: false },
        };
        item.sending = false;
        let ghost view = item@;
        let ghost pushed = backwards@;
        backwards.push(item);
        n = n - 1;
        proof {
            assert(item_views(backwards@) =~= item_views(pushed).push(view));
            assert(reversed(item_views(backwards@)) =~= seq![view] + tail);
            let inner = matched(item_views(left@), all.take(n as int), mode).1;
            assert(matched(before, part, mode).1 == inner.push(view));
            assert(inner.push(view) + tail =~= inner + (seq![view] + tail));
        }
    }
    let ghost turned = reversed(item_views(backwards@));
    let mut kept: Vec<PendingItem> = Vec::new();
    let mut k: usize = backwards.len();
    assert(item_views(kept@) =~= Seq::empty());
    while k > 0
        invariant
            k <= backwards@.len(),
            turned == reversed(item_views(backwards@)),
            item_views(kept@) == turned.take(backwards@.len() - k),
        decreases k,
    {
        let ghost before = kept@;
        let item = share(&backwards[k - 1]);
        kept.push(item);
        k = k - 1;
        proof {
            assert(item_views(kept@) =~= item_views(before).push(item@));
            assert(turned.take(backwards@.len() - k) =~= turned.take(
                backwards@.len() - k - 1,
            ).push(turned[backwards@.len() - k - 1]));
        }
    }
    proof {
        assert(turned.take(backwards@.len() as int) =~= turned);
        assert(all.take(0) =~= Seq::empty());
        assert(Seq::<ItemView>::empty() + turned =~= turned);
    }
    kept
}

pub open spec fn reversed(items: Seq<ItemView>) -> Seq<ItemView> {
    Seq::new(items.len(), |i: int| items[items.len() - 1 - i])
}

impl Pending {
    pub fn new() -> (r: Self)
        ensures
            r@ == PendingView::fresh(),
    {
        let r = Pending {
            steering: 0,
            follow_up: 0,
            items: Vec::new(),
            delivered: Vec::new(),
            initial: None,
        };
        assert(r@.items =~= Seq::empty());
        assert(r@.delivered =~= Seq::empty());
        r
    }

    /// Nothing waits any longer.
    pub fn clear(&mut self)
        ensures
            final(self)@ == old(self)@.cleared(),
    {
        self.steering = 0;
        self.follow_up = 0;
        self.items.clear();
        self.delivered.clear();
        assert(self@ =~= old(self)@.cleared());
    }

    /// The message that begins a turn.
    pub fn expect(&mut self, message: Option<&str>)
        ensures
            final(self)@ == (PendingView {
                initial: match message {
                    Some(text) => Some(text@),
                    None => None,
                },
                ..old(self)@
            }),
    {
        self.initial = match message {
            Some(text) => Some(copy(text)),
            None => None,
        };
        assert(self@ =~= (PendingView {
            initial: match message {
                Some(text) => Some(text@),
                None => None,
            },
            ..old(self)@
        }));
    }

    /// Pi has accepted a submission.
    pub fn queued(&mut self, submission: &DraftSubmission)
        ensures
            final(self)@ == old(self)@.queued(submission@),
    {
        let ghost start = self@;
        if let Some(i) = find_text(&self.delivered, submission.text.as_str()) {
            let _ = self.delivered.remove(i);
            assert(self@.delivered =~= start.delivered.remove(i as int));
            assert(self@ =~= start.queued(submission@));
            return;
        }
        let images: usize = submission.images.len();
        match find_open(
            &self.items,
            submission.text.as_str(),
            submission.mode,
            Ghost(submission@),
        ) {
            Some(i) => {
                let mut item = share(&self.items[i]);
                item.accepted = true;
                item.images = images;
                self.items.set(i, item);
                assert(self@.items =~= start.queued(submission@).items);
            },
            None => {
                self.items.push(
                    PendingItem {
                        text: copy(submission.text.as_str()),
                        mode: submission.mode,
                        images,
                        accepted: true,
                        sending: false,
                    },
                );
                assert(self@.items =~= start.queued(submission@).items);
            },
        }
        assert(self@ =~= start.queued(submission@));
    }

    /// Pi has delivered a message; whether it is not the one that began the
    /// turn.
    pub fn received(&mut self, text: &str) -> (r: bool)
        ensures
            (final(self)@, r) == old(self)@.received(text@),
    {
        let ghost start = self@;
        let initial = match &self.initial {
            Some(expected) => same(expected.as_str(), text),
            None => false,
        };
        if initial {
            self.initial = None;
            assert(self@ =~= start.received(text@).0);
            return false;
        }
        let place = match find_source(&self.items, text, true) {
            Some(i) => Some(i),
            None => find_source(&self.items, text, false),
        };
        let open = match place {
            Some(i) => {
                let item = self.items.remove(i);
                assert(self@.items =~= start.items.remove(i as int));
                !item.accepted
            },
            None => true,
        };
        if open && crate::text::chars_of(text).len() > 0 {
            let line = copy(text);
            proof {
                crate::lines::lemma_texts_push(self.delivered@, line);
            }
            self.delivered.push(line);
            if self.delivered.len() > MAX_DELIVERED {
                let ghost all = self@.delivered;
                let _ = self.delivered.remove(0);
                assert(self@.delivered =~= all.remove(0));
            }
        }
        assert(self@ =~= start.received(text@).0);
        true
    }

    /// A submission was turned down.
    pub fn rejected(&mut self, submission: &DraftSubmission)
        ensures
            final(self)@ == old(self)@.rejected(submission@),
    {
        let ghost start = self@;
        if let Some(i) = find_open(
            &self.items,
            submission.text.as_str(),
            submission.mode,
            Ghost(submission@),
        ) {
            let _ = self.items.remove(i);
            assert(self@.items =~= start.items.remove(i as int));
        }
        assert(self@ =~= start.rejected(submission@));
    }

    /// Pi says what it holds back.
    pub fn update(&mut self, event: &Json)
        ensures
            final(self)@ == old(self)@.updated(event@),
    {
        let ghost start = self@;
        let (steering, first) = texts_at(event, "steering");
        let (later, second) = texts_at(event, "followUp");
        self.steering = first;
        self.follow_up = second;
        let mut left: Vec<PendingItem> = Vec::new();
        std::mem::swap(&mut left, &mut self.items);
        let mut current = take_matching(&mut left, &steering, QueueMode::Steer);
        let mut more = take_matching(&mut left, &later, QueueMode::FollowUp);
        let ghost rest = item_views(left@);
        let ghost head = item_views(current@);
        let ghost tail = item_views(more@);
        current.append(&mut more);
        assert(item_views(current@) =~= head + tail);
        let mut i: usize = 0;
        while i < left.len()
            invariant
                i <= left@.len(),
                rest == item_views(left@),
                item_views(current@) =~= head + tail + leaving(rest).take(i as int),
            decreases left@.len() - i,
        {
            let ghost before = current@;
            let mut item = share(&left[i]);
            item.sending = true;
            current.push(item);
            i = i + 1;
            proof {
                assert(item_views(current@) =~= item_views(before).push(item@));
                assert(leaving(rest).take(i as int) =~= leaving(rest).take(i - 1).push(item@));
            }
        }
        assert(leaving(rest).take(i as int) =~= leaving(rest));
        self.items = current;
        assert(self@ =~= start.updated(event@));
    }
}

// ---------------------------------------------------------------------------
// Laws
// ---------------------------------------------------------------------------

proof fn lemma_place_from(texts: Seq<Seq<char>>, text: Seq<char>, i: int, k: int)
    requires
        0 <= i <= k < texts.len(),
        texts[k] == text,
    ensures
        place_from(texts, text, i) is Some,
    decreases k - i,
{
    if texts[i] != text {
        lemma_place_from(texts, text, i + 1, k);
    }
}

/// A late answer never recreates a row: once a message was delivered, its
/// acceptance adds nothing.
pub proof fn law_late_acceptance_adds_no_row(p: PendingView, text: Seq<char>, d: DraftView)
    requires
        p.initial != Some(text),
        d.text == text,
        text.len() > 0,
        p.source(text) is None,
        p.delivered.len() < MAX_DELIVERED,
    ensures
        p.received(text).0.queued(d).items == p.received(text).0.items,
{
    let after = p.received(text).0;
    lemma_place_from(after.delivered, text, 0, p.delivered.len() as int);
}

proof fn lemma_matched_len(old: Seq<ItemView>, messages: Seq<Seq<char>>, mode: QueueMode)
    ensures
        matched(old, messages, mode).1.len() == messages.len(),
        matched(old, messages, mode).0.len() + messages.len() >= old.len(),
        matched(old, messages, mode).0.len() <= old.len(),
    decreases messages.len(),
{
    if messages.len() > 0 {
        let text = messages.last();
        lemma_waiting_before(old, mode, text, old.len() as int);
        let left = match waiting_before(old, mode, text, old.len() as int) {
            Some(i) => old.remove(i),
            None => old,
        };
        lemma_matched_len(left, messages.drop_last(), mode);
    }
}

proof fn lemma_waiting_before(items: Seq<ItemView>, mode: QueueMode, text: Seq<char>, n: int)
    requires
        0 <= n <= items.len(),
    ensures
        waiting_before(items, mode, text, n) matches Some(i) ==> 0 <= i < n,
    decreases n,
{
    if n > 0 {
        lemma_waiting_before(items, mode, text, n - 1);
    }
}

/// No message disappears from view before it was delivered: an update keeps a
/// row for each, held back or on its way.
pub proof fn law_updates_lose_no_message(p: PendingView, e: Tree)
    ensures
        p.updated(e).items.len() >= p.items.len(),
        p.updated(e).items.len() >= field_texts(e, "steering"@).len() + field_texts(
            e,
            "followUp"@,
        ).len(),
{
    lemma_matched_len(p.items, field_texts(e, "steering"@), QueueMode::Steer);
    let left = matched(p.items, field_texts(e, "steering"@), QueueMode::Steer).0;
    lemma_matched_len(left, field_texts(e, "followUp"@), QueueMode::FollowUp);
}

proof fn lemma_waiting(items: Seq<ItemView>, mode: QueueMode, text: Seq<char>, n: int)
    ensures
        waiting_before(items, mode, text, n) matches Some(i) ==> 0 <= i < n <= items.len()
            && items[i].text == text && items[i].mode == mode && !items[i].sending,
    decreases n,
{
    if 0 < n <= items.len() {
        lemma_waiting(items, mode, text, n - 1);
    }
}

proof fn lemma_matched(old: Seq<ItemView>, messages: Seq<Seq<char>>, mode: QueueMode)
    ensures
        matched(old, messages, mode).1.len() == messages.len(),
        forall|i: int|
            0 <= i < messages.len() ==> {
                let item = #[trigger] matched(old, messages, mode).1[i];
                item.text == messages[i] && item.mode == mode && !item.sending
            },
    decreases messages.len(),
{
    if messages.len() > 0 {
        let text = messages.last();
        lemma_waiting(old, mode, text, old.len() as int);
        let (left, item) = match waiting_before(old, mode, text, old.len() as int) {
            Some(i) => (old.remove(i), ItemView { sending: false, ..old[i] }),
            None => (old, fresh(text, mode)),
        };
        let kept = matched(left, messages.drop_last(), mode).1;
        lemma_matched(left, messages.drop_last(), mode);
        assert forall|i: int| 0 <= i < messages.len() implies {
            let item = #[trigger] matched(old, messages, mode).1[i];
            item.text == messages[i] && item.mode == mode && !item.sending
        } by {
            if i < kept.len() {
                assert(matched(old, messages, mode).1[i] == kept[i]);
            }
        }
    }
}

/// After an update the list shows first what Pi holds back, in Pi's order:
/// what steers, then what follows up, each waiting. All that is left of the
/// list has left Pi's queue, and is shown as on its way.
pub proof fn law_the_list_shows_the_queue(p: PendingView, e: Tree)
    ensures
        ({
            let items = p.updated(e).items;
            let a = field_texts(e, "steering"@);
            let b = field_texts(e, "followUp"@);
            &&& forall|i: int|
                0 <= i < a.len() ==> (#[trigger] items[i]).text == a[i] && items[i].mode
                    == QueueMode::Steer && !items[i].sending
            &&& forall|i: int|
                a.len() <= i < a.len() + b.len() ==> (#[trigger] items[i]).text == b[i - a.len()]
                    && items[i].mode == QueueMode::FollowUp && !items[i].sending
            &&& forall|i: int|
                a.len() + b.len() <= i < items.len() ==> (#[trigger] items[i]).sending
        }),
{
    let a = field_texts(e, "steering"@);
    let b = field_texts(e, "followUp"@);
    let (left, steering) = matched(p.items, a, QueueMode::Steer);
    let (rest, later) = matched(left, b, QueueMode::FollowUp);
    lemma_matched(p.items, a, QueueMode::Steer);
    lemma_matched(left, b, QueueMode::FollowUp);
    let items = p.updated(e).items;
    assert forall|i: int| 0 <= i < a.len() implies (#[trigger] items[i]).text == a[i]
        && items[i].mode == QueueMode::Steer && !items[i].sending by {
        assert(items[i] == steering[i]);
    }
    assert forall|i: int| a.len() <= i < a.len() + b.len() implies (#[trigger] items[i]).text
        == b[i - a.len()] && items[i].mode == QueueMode::FollowUp && !items[i].sending by {
        assert(items[i] == later[i - a.len()]);
    }
}

proof fn lemma_places(items: Seq<ItemView>, text: Seq<char>, d: DraftView, i: int)
    requires
        0 <= i <= items.len(),
    ensures
        sending_from(items, text, i) matches Some(k) ==> i <= k < items.len() && items[k].text
            == text,
        match text_from(items, text, i) {
            Some(k) => i <= k < items.len() && items[k].text == text,
            None => forall|k: int| i <= k < items.len() ==> (#[trigger] items[k]).text != text,
        },
        match open_from(items, d, i) {
            Some(k) => i <= k < items.len() && items[k].text == d.text && items[k].mode == d.mode
                && !items[k].accepted,
            None => forall|k: int|
                i <= k < items.len() ==> (#[trigger] items[k]).text != d.text || items[k].mode
                    != d.mode || items[k].accepted,
        },
    decreases items.len() - i,
{
    if i < items.len() {
        lemma_places(items, text, d, i + 1);
    }
}

/// A message that was delivered leaves the list: one of that text, where
/// there is one, and no other. It is a message of its own, but for the one
/// that began the turn.
pub proof fn law_delivered_messages_leave_the_list(p: PendingView, text: Seq<char>, d: DraftView)
    ensures
        p.initial == Some(text) ==> p.received(text).1 == false && p.received(text).0.items
            == p.items && p.received(text).0.initial is None,
        p.initial != Some(text) ==> p.received(text).1,
        p.initial != Some(text) && (exists|k: int|
            0 <= k < p.items.len() && (#[trigger] p.items[k]).text == text) ==> exists|i: int|
            0 <= i < p.items.len() && p.items[i].text == text && p.received(text).0.items
                == #[trigger] p.items.remove(i),
        p.initial != Some(text) && (forall|k: int|
            0 <= k < p.items.len() ==> (#[trigger] p.items[k]).text != text) ==> p.received(
            text,
        ).0.items == p.items,
{
    lemma_places(p.items, text, d, 0);
    if p.initial != Some(text) && p.source(text) is Some {
        let i = p.source(text)->0;
        assert(p.received(text).0.items == p.items.remove(i));
    }
}

/// A message that Pi accepted is in the list, as accepted and with its images:
/// in its own row where it has one, and else as the last.
pub proof fn law_accepted_messages_are_listed(p: PendingView, d: DraftView)
    requires
        place_from(p.delivered, d.text, 0) is None,
        d.images.len() <= usize::MAX,
    ensures
        ({
            let q = p.queued(d).items;
            exists|i: int|
                {
                    &&& 0 <= i < q.len()
                    &&& (#[trigger] q[i]).text == d.text
                    &&& q[i].mode == d.mode
                    &&& q[i].accepted
                    &&& q[i].images == d.images.len()
                    &&& forall|j: int|
                        0 <= j < p.items.len() && j != i ==> #[trigger] q[j] == p.items[j]
                    &&& q.len() == p.items.len() || (q.len() == p.items.len() + 1 && i
                        == p.items.len())
                }
        }),
{
    lemma_places(p.items, d.text, d, 0);
    let q = p.queued(d).items;
    match open_from(p.items, d, 0) {
        Some(i) => {
            assert(q[i].text == d.text);
        },
        None => {
            assert(q[p.items.len() as int].text == d.text);
        },
    }
}

/// A message that Pi turned down leaves the list, and no other does.
pub proof fn law_rejected_messages_leave_the_list(p: PendingView, d: DraftView)
    ensures
        p.rejected(d).items == p.items || exists|i: int|
            0 <= i < p.items.len() && p.items[i].text == d.text && !p.items[i].accepted
                && p.rejected(d).items == #[trigger] p.items.remove(i),
        (exists|k: int|
            0 <= k < p.items.len() && (#[trigger] p.items[k]).text == d.text && p.items[k].mode
                == d.mode && !p.items[k].accepted) ==> p.rejected(d).items.len() == p.items.len()
            - 1,
{
    lemma_places(p.items, d.text, d, 0);
    if open_from(p.items, d, 0) is Some {
        assert(p.rejected(d).items == p.items.remove(open_from(p.items, d, 0)->0));
    }
}

}
