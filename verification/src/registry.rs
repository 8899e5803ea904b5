//! Which store belongs to which of the game's bags.
//!
//! The game reaches a bag through an accessor, every time it needs one. The
//! accessor is replaced, and it answers with a sixty-four byte bag this library
//! owns, the view, rather than the one inside the game's object. The host
//! keeps the view in memory the game can read and write; this registry decides
//! what goes into it.
//!
//! The game writes into the view it was handed, at sites nobody intercepts.
//! So every call takes the view back into the store before refreshing it from
//! the store. Whatever the game wrote at visible slot `k` is still at store
//! index `position + k`, because the window only moves while the registry
//! holds it.

use vstd::prelude::*;

use crate::bag_hooks::{promised_room, seek_slot, single_answer, two_slot_answer, roomiest_position_of};
use crate::input::SCROLL_STEP;
use crate::inventory::{Bag, Item, BAG_SIZE};
use crate::slots::{empties, rounded_capacity};
use crate::window::{
    back_on_equipped, clamped, doubled, fresh, holding, published, read_back, revealed_plain,
    same_window, Pin, Window, ROWS,
};

verus! {

/// How long a staged restore waits for the game's bag to match it, in
/// milliseconds.
///
/// The gap being bridged is the game copying the save into its bags, which
/// takes a loading screen. A record that has not matched by then is from some
/// other save, and holding it longer only gives it chances to match the live
/// inventory by coincidence.
pub const STAGED_LIFETIME_MS: u64 = 60_000;

/// Most slots a store may be given: every count below `usize::MAX`, the one
/// a store cannot be rounded up from.
pub const MAX_SLOTS: usize = usize::MAX - 1;

/// Slots the game can see at once.
pub const VISIBLE_SLOTS: usize = BAG_SIZE;

/// One character's storage, and the bag the game is shown in its place.
pub struct Entry {
    /// The object holding the game's own bag, and the offset within it.
    /// Together these identify a character's inventory across frames.
    pub owner: usize,
    pub offset: usize,
    /// Address of the view handed to the game.
    pub view: usize,
    /// What the game's own bag held last time this entry was looked at.
    pub mirror: Bag,
    pub window: Window,
}

/// A store read back from the side file, waiting for the game to load.
pub struct Restore {
    pub offset: usize,
    pub position: usize,
    pub items: Vec<Item>,
    /// The six the game should have restored, if this belongs to that save.
    pub expected_visible: Vec<Item>,
}

/// One staged restore, and what has happened to it so far.
pub struct Staged {
    pub restore: Restore,
    /// When it was staged, in the host's milliseconds.
    pub since: u64,
    /// Applied once already. Kept rather than removed: an application before
    /// the game finished copying the save in is overwritten by the reseed that
    /// copy causes, and the answer to that is applying again.
    pub applied: bool,
}

/// What is done to a window between taking the view in and publishing it.
#[derive(Clone, Copy, Debug, PartialEq, Eq, Structural)]
pub enum Adjust {
    Nothing,
    /// Scroll by this many rows of two.
    Scroll(i32),
    /// Hold this visible row still.
    Pin(usize),
    /// Release the held row, keeping this visible slot's item in place.
    Unpin(Option<usize>),
    /// Come back onto the equipped item.
    KeepEquipped,
    /// Go back to the first slot.
    Rewind,
}

/// What a question asked through a view is.
#[derive(Clone, Copy, Debug, PartialEq, Eq, Structural)]
pub enum Query {
    /// How many empty slots the game may be promised.
    CountEmpty,
    /// Which slot to write an item into.
    FirstEmpty { two_slot: bool },
}

pub struct Registry {
    entries: Vec<Entry>,
    /// Slots each store gets.
    capacity: usize,
    pending: Vec<Staged>,
    /// Whether a staged restore has matched since the last load.
    matched: bool,
}

/// Whether `after` is `before` adjusted by `a`.
pub open spec fn adjusted(a: Adjust, before: Window, after: Window) -> bool {
    &&& after.wf()
    &&& after.items() == before.items()
    &&& after.equipped_index() == before.equipped_index()
    &&& match a {
        Adjust::Nothing => same_window(before, after),
        Adjust::Scroll(rows) => after.held() == before.held() && after.pos() == clamped(
            before.pos() + doubled(rows),
            before.max_pos(),
        ),
        Adjust::Pin(row) => if row >= ROWS || before.held() is Some {
            same_window(before, after)
        } else {
            after.held() == Some(Pin { visible_row: row, store_row: (before.pos() / 2 + row) as usize })
                && after.pos() == before.pos()
        },
        Adjust::Unpin(keep) => after.held() is None && if before.held() is None {
            after.pos() == before.pos()
        } else {
            after.pos() == match keep {
                Some(slot) => match before.index_of(before.pos(), slot as int) {
                    Some(index) => if index >= slot && (index - slot) % 2 == 0 && index - slot
                        <= before.max_pos() {
                        index - slot
                    } else {
                        revealed_plain(before.pos(), index, before.max_pos())
                    },
                    None => before.pos(),
                },
                None => before.pos(),
            }
        },
        Adjust::KeepEquipped => back_on_equipped(before, after),
        Adjust::Rewind => after.held() == before.held() && after.pos() == 0,
    }
}

/// Whether `after` and `out` are what taking `view` into `before`, adjusting,
/// and publishing gives.
pub open spec fn synced(before: Window, view: Bag, a: Adjust, after: Window, out: Bag) -> bool {
    exists|taken: Window|
        #![trigger read_back(before, view, taken)]
        read_back(before, view, taken) && adjusted(a, taken, after) && published(after, view, out)
}

/// The staged restores still alive at `now`.
pub open spec fn alive(s: Staged, now: u64) -> bool {
    (if now >= s.since {
        now - s.since
    } else {
        0
    }) < STAGED_LIFETIME_MS
}

pub open spec fn live(pending: Seq<Staged>, now: u64) -> Seq<Staged>
    decreases pending.len(),
{
    if pending.len() == 0 {
        seq![]
    } else {
        live(pending.drop_last(), now) + if alive(pending.last(), now) {
            seq![pending.last()]
        } else {
            seq![]
        }
    }
}

/// The first staged restore for the bag at `offset` whose recorded six are
/// the six the game restored.
pub open spec fn first_match(pending: Seq<Staged>, offset: usize, visible: Seq<Item>, from: int) -> Option<int>
    decreases pending.len() - from,
{
    if from < 0 || from >= pending.len() {
        None
    } else if pending[from].restore.offset == offset && pending[from].restore.expected_visible@
        == visible {
        Some(from)
    } else {
        first_match(pending, offset, visible, from + 1)
    }
}

/// What the staged restores do to the store of the bag at `offset`, when the
/// game's bag holds `own`: the first live match replaces the store, and is
/// marked applied; the expired are dropped.
pub open spec fn staged_step(
    pending: Seq<Staged>,
    now: u64,
    offset: usize,
    own: Bag,
    before: Window,
    after: Window,
    pending_after: Seq<Staged>,
    matched_before: bool,
    matched_after: bool,
) -> bool {
    let l = live(pending, now);
    match first_match(l, offset, own.items@, 0) {
        None => same_window(before, after) && after.wf() && pending_after == l && matched_after
            == matched_before,
        Some(i) => {
            &&& holding(after, before.cap(), l[i].restore.items@, l[i].restore.position as int)
            &&& pending_after == l.update(
                i,
                Staged { restore: l[i].restore, since: l[i].since, applied: true },
            )
            &&& matched_after
        },
    }
}

/// Index of the entry for `owner + offset`.
pub open spec fn entry_at(entries: Seq<Entry>, owner: usize, offset: usize) -> int {
    choose|k: int| 0 <= k < entries.len() && entries[k].owner == owner && entries[k].offset == offset
}

pub open spec fn has_entry(entries: Seq<Entry>, owner: usize, offset: usize) -> bool {
    exists|k: int| 0 <= k < entries.len() && entries[k].owner == owner && entries[k].offset == offset
}

pub open spec fn entries_wf(entries: Seq<Entry>) -> bool {
    &&& forall|k: int|
        0 <= k < entries.len() ==> {
            &&& (#[trigger] entries[k]).window.wf()
            &&& entries[k].window.cap() <= MAX_SLOTS
            &&& entries[k].owner + entries[k].offset <= usize::MAX
        }
    &&& forall|i: int, j: int|
        0 <= i < j < entries.len() ==> !((#[trigger] entries[i]).owner == (#[trigger] entries[j]).owner
            && entries[i].offset == entries[j].offset)
}

pub open spec fn pending_wf(pending: Seq<Staged>) -> bool {
    forall|k: int| 0 <= k < pending.len() ==> (#[trigger] pending[k]).restore.items@.len() <= MAX_SLOTS
}

proof fn lemma_wf_kept(a: Registry, b: Registry)
    requires
        a.wf(),
        b.entries_of().len() <= a.entries_of().len(),
        forall|k: int| 0 <= k < b.entries_of().len() ==> #[trigger] b.entries_of()[k] == a.entries_of()[k],
        b.pending_of().len() <= a.pending_of().len(),
        forall|k: int| 0 <= k < b.pending_of().len() ==> (#[trigger] b.pending_of()[k]).restore == a.pending_of()[k].restore,
        b.capacity_of() <= MAX_SLOTS,
    ensures
        b.wf(),
{
    assert forall|k: int| 0 <= k < b.entries_of().len() implies (#[trigger] b.entries_of()[k]).window.wf() by {
        assert(a.entries_of()[k] == b.entries_of()[k]);
    }
    assert forall|i: int, j: int| 0 <= i < j < b.entries_of().len() implies !((#[trigger] b.entries_of()[i]).owner
                == (#[trigger] b.entries_of()[j]).owner && b.entries_of()[i].offset
                == b.entries_of()[j].offset) by {
        assert(a.entries_of()[i] == b.entries_of()[i]);
        assert(a.entries_of()[j] == b.entries_of()[j]);
    }
    assert forall|k: int| 0 <= k < b.pending_of().len() implies (#[trigger] b.pending_of()[k]).restore.items@.len() <= MAX_SLOTS by {
        assert(a.pending_of()[k].restore.items@.len() <= MAX_SLOTS);
    }
}

impl Registry {
    pub closed spec fn entries_of(&self) -> Seq<Entry> {
        self.entries@
    }

    pub closed spec fn capacity_of(&self) -> usize {
        self.capacity
    }

    pub closed spec fn pending_of(&self) -> Seq<Staged> {
        self.pending@
    }

    pub closed spec fn matched_of(&self) -> bool {
        self.matched
    }

    /// Every store is a valid window of a size a store may have, no bag has
    /// two stores, and every staged restore fits a store.
    pub open spec fn wf(&self) -> bool {
        &&& self.capacity_of() <= MAX_SLOTS
        &&& entries_wf(self.entries_of())
        &&& pending_wf(self.pending_of())
    }

    /// No stores, no capacity, nothing staged.
    pub fn new() -> (r: Registry)
        ensures
            r.wf(),
            r.entries_of() == Seq::<Entry>::empty(),
            r.capacity_of() == 0,
            r.pending_of() == Seq::<Staged>::empty(),
            !r.matched_of(),
    {
        Registry { entries: Vec::new(), capacity: 0, pending: Vec::new(), matched: false }
    }

    /// Sets how many slots each new store gets.
    pub fn set_capacity(&mut self, slots: usize)
        requires
            old(self).wf(),
            slots <= MAX_SLOTS,
        ensures
            final(self).wf(),
            final(self).capacity_of() == slots,
            final(self).entries_of() == old(self).entries_of(),
            final(self).pending_of() == old(self).pending_of(),
            final(self).matched_of() == old(self).matched_of(),
    {
        let ghost before = *self;
        self.capacity = slots;
        proof {
            lemma_wf_kept(before, *self);
        }
    }

    /// The index of the store for the bag at `owner + offset`.
    pub fn find(&self, owner: usize, offset: usize) -> (r: Option<usize>)
        requires
            self.wf(),
        ensures
            match r {
                Some(k) => k < self.entries_of().len() && k == entry_at(self.entries_of(), owner, offset)
                    && has_entry(self.entries_of(), owner, offset),
                None => !has_entry(self.entries_of(), owner, offset),
            },
    {
        let mut k: usize = 0;
        while k < self.entries.len()
            invariant
                self.wf(),
                k <= self.entries@.len(),
                forall|j: int|
                    0 <= j < k ==> !((#[trigger] self.entries@[j]).owner == owner
                        && self.entries@[j].offset == offset),
            decreases self.entries@.len() - k,
        {
            if self.entries[k].owner == owner && self.entries[k].offset == offset {
                proof {
                    assert(self.entries_of()[k as int].owner == owner && self.entries_of()[k as int].offset == offset);
                    assert(has_entry(self.entries_of(), owner, offset));
                    let c = entry_at(self.entries_of(), owner, offset);
                    if c != k {
                        if c < k {
                            assert(!(self.entries@[c].owner == owner && self.entries@[c].offset == offset));
                        } else {
                            assert(!(self.entries_of()[k as int].owner == self.entries_of()[c].owner
                                && self.entries_of()[k as int].offset == self.entries_of()[c].offset));
                        }
                    }
                }
                return Some(k);
            }
            k += 1;
        }
        None
    }

    /// Address of the view already handed out for the bag at `owner + offset`.
    pub fn view_address(&self, owner: usize, offset: usize) -> (r: Option<usize>)
        requires
            self.wf(),
        ensures
            match r {
                Some(a) => has_entry(self.entries_of(), owner, offset) && a == self.entries_of()[entry_at(
                    self.entries_of(),
                    owner,
                    offset,
                )].view,
                None => !has_entry(self.entries_of(), owner, offset),
            },
    {
        match self.find(owner, offset) {
            Some(k) => Some(self.entries[k].view),
            None => None,
        }
    }

    /// Forgets every store. The object a store is keyed on is freed and
    /// rebuilt on a new game or a load; a store keyed on a stale address would
    /// hand a character's items to whatever is allocated there next.
    pub fn forget_all(&mut self)
        requires
            old(self).wf(),
        ensures
            final(self).wf(),
            final(self).entries_of() == Seq::<Entry>::empty(),
            final(self).capacity_of() == old(self).capacity_of(),
            final(self).pending_of() == old(self).pending_of(),
            final(self).matched_of() == old(self).matched_of(),
    {
        self.entries.clear();
        proof {
            lemma_wf_kept(*old(self), *self);
        }
    }

    /// Whether a staged restore has matched the loaded save yet: the signal
    /// that the side file describes the save actually loaded.
    pub fn restore_matched(&self) -> (r: bool)
        ensures
            r == self.matched_of(),
    {
        self.matched
    }

    /// Drops anything staged, for a load that turned out not to happen.
    pub fn discard_staged(&mut self)
        requires
            old(self).wf(),
        ensures
            final(self).wf(),
            final(self).pending_of() == Seq::<Staged>::empty(),
            !final(self).matched_of(),
            final(self).entries_of() == old(self).entries_of(),
            final(self).capacity_of() == old(self).capacity_of(),
    {
        self.pending.clear();
        self.matched = false;
        proof {
            lemma_wf_kept(*old(self), *self);
        }
    }

    /// Holds restores until the game has loaded, stamped with `now`.
    pub fn stage(&mut self, restores: Vec<Restore>, now: u64)
        requires
            old(self).wf(),
            forall|k: int| 0 <= k < restores@.len() ==> (#[trigger] restores@[k]).items@.len() <= MAX_SLOTS,
        ensures
            final(self).wf(),
            final(self).pending_of().len() == restores@.len(),
            forall|k: int|
                0 <= k < restores@.len() ==> #[trigger] final(self).pending_of()[k] == (Staged {
                    restore: restores@[k],
                    since: now,
                    applied: false,
                }),
            !final(self).matched_of(),
            final(self).entries_of() == old(self).entries_of(),
            final(self).capacity_of() == old(self).capacity_of(),
    {
        let mut source = restores;
        let ghost all = source@;
        let mut staged: Vec<Staged> = Vec::new();
        while source.len() > 0
            invariant
                staged@.len() + source@.len() == all.len(),
                source@ == all.skip(staged@.len() as int),
                forall|k: int| 0 <= k < staged@.len() ==> #[trigger] staged@[k] == (Staged {
                    restore: all[k],
                    since: now,
                    applied: false,
                }),
            decreases source@.len(),
        {
            let restore = source.remove(0);
            proof {
                assert(all.skip(staged@.len() + 1int) =~= all.skip(staged@.len() as int).remove(0));
            }
            staged.push(Staged { restore, since: now, applied: false });
        }
        let ghost before = *self;
        self.pending = staged;
        self.matched = false;
        proof {
            assert(all =~= restores@);
            assert forall|k: int| 0 <= k < self.pending_of().len() implies (#[trigger] self.pending_of()[k]).restore.items@.len() <= MAX_SLOTS by {
                assert(self.pending_of()[k].restore == restores@[k]);
            }
            assert(self.entries_of() == before.entries_of());
        }
    }

    /// Where each store's window sits, and what it is showing, for logging:
    /// the bag's address, the position, the capacity and the empty slots.
    pub fn positions(&self) -> (r: Vec<(usize, usize, usize, usize)>)
        requires
            self.wf(),
        ensures
            r@.len() == self.entries_of().len(),
            forall|k: int|
                0 <= k < r@.len() ==> {
                    let e = self.entries_of()[k];
                    #[trigger] r@[k] == (
                        (e.owner + e.offset) as usize,
                        e.window.pos() as usize,
                        e.window.cap() as usize,
                        empties(e.window.items()) as usize,
                    )
                },
    {
        let mut out: Vec<(usize, usize, usize, usize)> = Vec::new();
        let mut k: usize = 0;
        while k < self.entries.len()
            invariant
                self.wf(),
                k <= self.entries@.len(),
                out@.len() == k,
                forall|j: int|
                    0 <= j < k ==> {
                        let e = self.entries_of()[j];
                        #[trigger] out@[j] == (
                            (e.owner + e.offset) as usize,
                            e.window.pos() as usize,
                            e.window.cap() as usize,
                            empties(e.window.items()) as usize,
                        )
                    },
            decreases self.entries@.len() - k,
        {
            let e = &self.entries[k];
            assert(self.entries_of()[k as int] == *e);
            out.push((e.owner + e.offset, e.window.position(), e.window.store().capacity(), e.window.store().count_empty()));
            k += 1;
        }
        out
    }

    /// The items the store at `index` holds, or none when there is no such
    /// store.
    pub fn contents(&self, index: usize) -> (r: Vec<Item>)
        requires
            self.wf(),
        ensures
            r@ == if index < self.entries_of().len() {
                self.entries_of()[index as int].window.items()
            } else {
                Seq::<Item>::empty()
            },
    {
        if index < self.entries.len() {
            let slice = self.entries[index].window.store().as_slice();
            let mut out: Vec<Item> = Vec::new();
            let mut k: usize = 0;
            while k < slice.len()
                invariant
                    k <= slice@.len(),
                    out@ == slice@.take(k as int),
                decreases slice@.len() - k,
            {
                out.push(slice[k]);
                k += 1;
                assert(out@ =~= slice@.take(k as int));
            }
            assert(slice@.take(slice@.len() as int) =~= slice@);
            out
        } else {
            Vec::new()
        }
    }

    /// The item showing in visible slot `slot` of the first store at bag
    /// offset `offset`.
    pub fn item_in_view(&self, offset: usize, slot: usize) -> (r: Option<Item>)
        requires
            self.wf(),
        ensures
            match first_at_offset(self.entries_of(), offset, 0) {
                None => r is None,
                Some(k) => {
                    let w = self.entries_of()[k].window;
                    r == match w.index_of(w.pos(), slot as int) {
                        Some(i) => Some(w.items()[i]),
                        None => None::<Item>,
                    }
                },
            },
    {
        let mut k: usize = 0;
        while k < self.entries.len()
            invariant
                self.wf(),
                k <= self.entries@.len(),
                first_at_offset(self.entries_of(), offset, 0) == first_at_offset(
                    self.entries_of(),
                    offset,
                    k as int,
                ),
            decreases self.entries@.len() - k,
        {
            if self.entries[k].offset == offset {
                let w = &self.entries[k].window;
                assert(self.entries_of()[k as int].window == *w);
                return match w.store_index(slot) {
                    Some(index) => w.store().get(index),
                    None => None,
                };
            }
            k += 1;
        }
        None
    }
}

/// The first entry from `from` on for a bag at offset `offset`.
pub open spec fn first_at_offset(entries: Seq<Entry>, offset: usize, from: int) -> Option<int>
    decreases entries.len() - from,
{
    if from < 0 || from >= entries.len() {
        None
    } else if entries[from].offset == offset {
        Some(from)
    } else {
        first_at_offset(entries, offset, from + 1)
    }
}

/// Whether entry `a` and published view `v1` are entry `b`, whose view held
/// `v0`, synced with `adjust`. The view is rewritten always, or only when the
/// window moved.
pub open spec fn entry_synced(b: Entry, a: Entry, v0: Bag, v1: Bag, adjust: Adjust, always: bool) -> bool {
    &&& a.owner == b.owner
    &&& a.offset == b.offset
    &&& a.view == b.view
    &&& a.mirror == b.mirror
    &&& exists|out: Bag|
        #![trigger published(a.window, v0, out)]
        synced(b.window, v0, adjust, a.window, out) && v1 == if always || a.window.pos()
            != b.window.pos() {
            out
        } else {
            v0
        }
}

/// Whether every store of `b`, shown through `v0`, became the store of `a`
/// shown through `v1` by one `adjust`.
pub open spec fn all_synced(b: Seq<Entry>, a: Seq<Entry>, v0: Seq<Bag>, v1: Seq<Bag>, adjust: Adjust) -> bool {
    &&& a.len() == b.len()
    &&& v0.len() == b.len()
    &&& v1.len() == b.len()
    &&& forall|k: int| 0 <= k < b.len() ==> entry_synced(#[trigger] b[k], a[k], v0[k], v1[k], adjust, false)
}

/// Wrapping around brings every store back to its first row.
pub proof fn law_wrapping_rewinds_every_store(b: Seq<Entry>, a: Seq<Entry>, v0: Seq<Bag>, v1: Seq<Bag>)
    requires
        all_synced(b, a, v0, v1, Adjust::Rewind),
    ensures
        forall|k: int| 0 <= k < a.len() ==> (#[trigger] a[k]).window.pos() == 0,
{
    assert forall|k: int| 0 <= k < a.len() implies (#[trigger] a[k]).window.pos() == 0 by {
        assert(entry_synced(b[k], a[k], v0[k], v1[k], Adjust::Rewind, false));
    }
}

/// How many stores moved between `before` and `after`, among the first `n`.
pub open spec fn moved_count(before: Seq<Entry>, after: Seq<Entry>, n: int) -> nat
    decreases n,
{
    if n <= 0 {
        0
    } else {
        moved_count(before, after, n - 1) + if after[n - 1].window.pos() != before[n - 1].window.pos() {
            1nat
        } else {
            0nat
        }
    }
}

/// The first entry whose view is at `view`.
pub open spec fn first_with_view(entries: Seq<Entry>, view: usize, from: int) -> Option<int>
    decreases entries.len() - from,
{
    if from < 0 || from >= entries.len() {
        None
    } else if entries[from].view == view {
        Some(from)
    } else {
        first_with_view(entries, view, from + 1)
    }
}

proof fn lemma_first_with_view_range(entries: Seq<Entry>, view: usize, from: int)
    requires
        0 <= from,
    ensures
        first_with_view(entries, view, from) matches Some(k) ==> from <= k < entries.len()
            && entries[k].view == view,
    decreases entries.len() - from,
{
    if from < entries.len() && entries[from].view != view {
        lemma_first_with_view_range(entries, view, from + 1);
    }
}

/// What answering `q` does to a window that has taken the view in: the new
/// window and the answer.
pub open spec fn answered(q: Query, taken: Window, after: Window, answer: int) -> bool {
    &&& after.wf()
    &&& after.items() == taken.items()
    &&& after.equipped_index() == taken.equipped_index()
    &&& after.held() == taken.held()
    &&& match q {
        Query::CountEmpty => after.pos() == taken.pos() && answer == empty_in_view_at_roomiest(taken),
        Query::FirstEmpty { two_slot } => (after.pos(), answer) == if two_slot {
            two_slot_answer(taken)
        } else {
            single_answer(taken)
        },
    }
}

/// Whether `after` and `out` are `before` having taken `view` in, answered
/// `q` with `answer`, and published.
pub open spec fn view_answered(before: Window, after: Window, view: Bag, q: Query, answer: int, out: Bag) -> bool {
    exists|taken: Window|
        #![trigger read_back(before, view, taken)]
        read_back(before, view, taken) && answered(q, taken, after, answer) && published(after, view, out)
}

pub open spec fn empty_in_view_at_roomiest(w: Window) -> int {
    crate::window::empty_in_view(w, roomiest_position_of(w)) as int
}

proof fn lemma_entry_replaced(entries: Seq<Entry>, k: int, e: Entry)
    requires
        entries_wf(entries),
        0 <= k < entries.len(),
        e.owner == entries[k].owner,
        e.offset == entries[k].offset,
        e.window.wf(),
        e.window.cap() <= MAX_SLOTS,
        e.owner + e.offset <= usize::MAX,
    ensures
        entries_wf(entries.update(k, e)),
{
    let after = entries.update(k, e);
    assert forall|i: int, j: int| 0 <= i < j < after.len() implies !((#[trigger] after[i]).owner
        == (#[trigger] after[j]).owner && after[i].offset == after[j].offset) by {
        assert(after[i].owner == entries[i].owner && after[i].offset == entries[i].offset);
        assert(after[j].owner == entries[j].owner && after[j].offset == entries[j].offset);
        assert(!(entries[i].owner == entries[j].owner && entries[i].offset == entries[j].offset));
    }
    assert forall|i: int| 0 <= i < after.len() implies {
        &&& (#[trigger] after[i]).window.wf()
        &&& after[i].window.cap() <= MAX_SLOTS
        &&& after[i].owner + after[i].offset <= usize::MAX
    } by {
        if i != k {
            assert(after[i] == entries[i]);
        } else {
            assert(entries[k].owner + entries[k].offset <= usize::MAX);
        }
    }
}

proof fn lemma_entry_pushed(entries: Seq<Entry>, e: Entry)
    requires
        entries_wf(entries),
        !has_entry(entries, e.owner, e.offset),
        e.window.wf(),
        e.window.cap() <= MAX_SLOTS,
        e.owner + e.offset <= usize::MAX,
    ensures
        entries_wf(entries.push(e)),
{
    let after = entries.push(e);
    assert forall|i: int, j: int| 0 <= i < j < after.len() implies !((#[trigger] after[i]).owner
        == (#[trigger] after[j]).owner && after[i].offset == after[j].offset) by {
        assert(after[i] == entries[i]);
        if j < entries.len() {
            assert(after[j] == entries[j]);
        } else {
            assert(!(entries[i].owner == e.owner && entries[i].offset == e.offset));
        }
    }
    assert forall|i: int| 0 <= i < after.len() implies {
        &&& (#[trigger] after[i]).window.wf()
        &&& after[i].window.cap() <= MAX_SLOTS
        &&& after[i].owner + after[i].offset <= usize::MAX
    } by {
        if i < entries.len() {
            assert(after[i] == entries[i]);
        }
    }
}

proof fn lemma_entry_at(entries: Seq<Entry>, k: int, owner: usize, offset: usize)
    requires
        entries_wf(entries),
        0 <= k < entries.len(),
        entries[k].owner == owner,
        entries[k].offset == offset,
    ensures
        has_entry(entries, owner, offset),
        entry_at(entries, owner, offset) == k,
{
    assert(has_entry(entries, owner, offset));
    let c = entry_at(entries, owner, offset);
    if c != k {
        if c < k {
            assert(!(entries[c].owner == entries[k].owner && entries[c].offset == entries[k].offset));
        } else {
            assert(!(entries[k].owner == entries[c].owner && entries[k].offset == entries[c].offset));
        }
    }
}

proof fn lemma_moved_count_prefix(before: Seq<Entry>, a: Seq<Entry>, b: Seq<Entry>, n: int)
    requires
        0 <= n,
        n <= a.len(),
        n <= b.len(),
        forall|j: int| 0 <= j < n ==> #[trigger] a[j] == b[j],
    ensures
        moved_count(before, a, n) == moved_count(before, b, n),
    decreases n,
{
    if n > 0 {
        lemma_moved_count_prefix(before, a, b, n - 1);
    }
}

impl Entry {
    /// Takes `view` into the store, adjusts the window, and returns the bag to
    /// publish, with whether the window moved.
    fn sync_with(&mut self, view: Bag, adjust: Adjust) -> (r: (Bag, bool))
        requires
            old(self).window.wf(),
        ensures
            final(self).owner == old(self).owner,
            final(self).offset == old(self).offset,
            final(self).view == old(self).view,
            final(self).mirror == old(self).mirror,
            final(self).window.cap() == old(self).window.cap(),
            synced(old(self).window, view, adjust, final(self).window, r.0),
            r.1 == (final(self).window.pos() != old(self).window.pos()),
    {
        let mut bag = view;
        self.window.read_from(&bag);
        let ghost taken = self.window;
        let before = self.window.position();
        match adjust {
            Adjust::Nothing => {},
            Adjust::Scroll(rows) => {
                self.window.scroll_rows(rows);
            },
            Adjust::Pin(row) => {
                self.window.pin_row(row);
            },
            Adjust::Unpin(keep) => {
                self.window.unpin(keep);
            },
            Adjust::KeepEquipped => {
                self.window.keep_equipped_visible();
            },
            Adjust::Rewind => {
                self.window.reset();
            },
        }
        let moved = self.window.position() != before;
        self.window.write_into(&mut bag);
        assert(read_back(old(self).window, view, taken));
        (bag, moved)
    }
}

impl Registry {
    /// Scrolls every store by `rows` rows of two, taking in each store's view
    /// first; `views` holds what each view holds now, and afterwards what to
    /// publish. Stores move together: the panels sit side by side, so moving
    /// both shows the same rows of each. Returns how many stores moved.
    pub fn scroll_all(&mut self, rows: i32, views: &mut Vec<Bag>) -> (r: usize)
        requires
            old(self).wf(),
            old(views)@.len() == old(self).entries_of().len(),
        ensures
            final(self).wf(),
            final(self).entries_of().len() == old(self).entries_of().len(),
            final(views)@.len() == old(views)@.len(),
            forall|k: int|
                0 <= k < old(views)@.len() ==> entry_synced(
                    #[trigger] old(self).entries_of()[k],
                    final(self).entries_of()[k],
                    old(views)@[k],
                    final(views)@[k],
                    Adjust::Scroll(rows),
                    false,
                ),
            r == moved_count(
                old(self).entries_of(),
                final(self).entries_of(),
                old(self).entries_of().len() as int,
            ),
            final(self).capacity_of() == old(self).capacity_of(),
            final(self).pending_of() == old(self).pending_of(),
            final(self).matched_of() == old(self).matched_of(),
    {
        self.sync_each(None, Adjust::Scroll(rows), false, views)
    }

    /// Shows the next rows of every store, starting over from the first row
    /// once no store can go further: pressing down against the bottom row
    /// wraps around at the end. Gives how many stores moved, and whether it
    /// wrapped.
    pub fn advance_all(&mut self, views: &mut Vec<Bag>) -> (r: (usize, bool))
        requires
            old(self).wf(),
            old(views)@.len() == old(self).entries_of().len(),
        ensures
            final(self).wf(),
            final(self).capacity_of() == old(self).capacity_of(),
            final(self).pending_of() == old(self).pending_of(),
            final(self).matched_of() == old(self).matched_of(),
            !r.1 ==> r.0 > 0 && all_synced(
                old(self).entries_of(),
                final(self).entries_of(),
                old(views)@,
                final(views)@,
                Adjust::Scroll(SCROLL_STEP),
            ) && r.0 == moved_count(
                old(self).entries_of(),
                final(self).entries_of(),
                old(self).entries_of().len() as int,
            ),
            r.1 ==> exists|mid: Seq<Entry>, mid_views: Seq<Bag>|
                #[trigger] all_synced(
                    old(self).entries_of(),
                    mid,
                    old(views)@,
                    mid_views,
                    Adjust::Scroll(SCROLL_STEP),
                ) && moved_count(old(self).entries_of(), mid, mid.len() as int) == 0 && all_synced(
                    mid,
                    final(self).entries_of(),
                    mid_views,
                    final(views)@,
                    Adjust::Rewind,
                ) && r.0 == moved_count(mid, final(self).entries_of(), mid.len() as int),
    {
        let ghost start = self.entries@;
        let ghost start_views = views@;
        let moved = self.scroll_all(SCROLL_STEP, views);
        assert(all_synced(start, self.entries_of(), start_views, views@, Adjust::Scroll(SCROLL_STEP)));
        if moved > 0 {
            return (moved, false);
        }
        let ghost mid = self.entries@;
        let ghost mid_views = views@;
        let back = self.rewind_all(views);
        assert(all_synced(mid, self.entries_of(), mid_views, views@, Adjust::Rewind));
        assert(moved_count(start, mid, mid.len() as int) == 0);
        (back, true)
    }

    /// Syncs every store, or every store at bag offset `only`, with `adjust`,
    /// and counts the stores whose window moved.
    fn sync_each(&mut self, only: Option<usize>, adjust: Adjust, always: bool, views: &mut Vec<Bag>) -> (r: usize)
        requires
            old(self).wf(),
            old(views)@.len() == old(self).entries_of().len(),
        ensures
            final(self).wf(),
            final(self).entries_of().len() == old(self).entries_of().len(),
            final(views)@.len() == old(views)@.len(),
            forall|k: int|
                0 <= k < old(views)@.len() ==> if only is None || only == Some(
                    old(self).entries_of()[k].offset,
                ) {
                    entry_synced(
                        #[trigger] old(self).entries_of()[k],
                        final(self).entries_of()[k],
                        old(views)@[k],
                        final(views)@[k],
                        adjust,
                        always,
                    )
                } else {
                    final(self).entries_of()[k] == old(self).entries_of()[k] && final(views)@[k]
                        == old(views)@[k]
                },
            r == moved_count(
                old(self).entries_of(),
                final(self).entries_of(),
                old(self).entries_of().len() as int,
            ),
            final(self).capacity_of() == old(self).capacity_of(),
            final(self).pending_of() == old(self).pending_of(),
            final(self).matched_of() == old(self).matched_of(),
    {
        let ghost start = *self;
        let ghost start_views = views@;
        let mut moved: usize = 0;
        let mut k: usize = 0;
        while k < self.entries.len()
            invariant
                self.capacity_of() == start.capacity_of(),
                self.pending_of() == start.pending_of(),
                self.matched_of() == start.matched_of(),
                start.wf(),
                self.wf(),
                k <= self.entries@.len(),
                self.entries@.len() == start.entries_of().len(),
                views@.len() == start_views.len(),
                start_views.len() == start.entries_of().len(),
                forall|j: int|
                    k <= j < self.entries@.len() ==> #[trigger] self.entries@[j] == start.entries_of()[j],
                forall|j: int| k <= j < views@.len() ==> #[trigger] views@[j] == start_views[j],
                forall|j: int|
                    0 <= j < k ==> if only is None || only == Some(start.entries_of()[j].offset) {
                        entry_synced(
                            #[trigger] start.entries_of()[j],
                            self.entries_of()[j],
                            start_views[j],
                            views@[j],
                            adjust,
                            always,
                        )
                    } else {
                        self.entries_of()[j] == start.entries_of()[j] && views@[j] == start_views[j]
                    },
                moved == moved_count(start.entries_of(), self.entries_of(), k as int),
                moved <= k,
            decreases self.entries@.len() - k,
        {
            let ghost before_entries = self.entries@;
            let ghost before_views = views@;
            let selected = match only {
                None => true,
                Some(offset) => self.entries[k].offset == offset,
            };
            if selected {
                let mut entry = self.entries.remove(k);
                let view = views[k];
                let (bag, changed) = entry.sync_with(view, adjust);
                if always || changed {
                    views.set(k, bag);
                }
                if changed {
                    moved += 1;
                }
                self.entries.insert(k, entry);
                proof {
                    assert(self.entries@ =~= before_entries.update(k as int, entry));
                    lemma_entry_replaced(before_entries, k as int, entry);
                    lemma_moved_count_prefix(
                        start.entries_of(),
                        before_entries,
                        self.entries_of(),
                        k as int,
                    );
                    assert(published(entry.window, view, bag));
                    assert(entry_synced(
                        start.entries_of()[k as int],
                        self.entries_of()[k as int],
                        start_views[k as int],
                        views@[k as int],
                        adjust,
                        always,
                    ));
                    assert forall|j: int| 0 <= j < k implies #[trigger] self.entries_of()[j] == before_entries[j]
                        && views@[j] == before_views[j] by {}
                }
            } else {
                proof {
                    assert(self.entries_of()[k as int] == start.entries_of()[k as int]);
                }
            }
            k += 1;
        }
        moved
    }
}

impl Registry {
    /// Whether any store is for a bag at offset `offset`.
    fn any_at_offset(&self, offset: usize) -> (r: bool)
        ensures
            r == first_at_offset(self.entries_of(), offset, 0) is Some,
    {
        let mut k: usize = 0;
        while k < self.entries.len()
            invariant
                k <= self.entries@.len(),
                first_at_offset(self.entries_of(), offset, 0) == first_at_offset(
                    self.entries_of(),
                    offset,
                    k as int,
                ),
            decreases self.entries@.len() - k,
        {
            if self.entries[k].offset == offset {
                return true;
            }
            k += 1;
        }
        false
    }

    /// Holds visible row `visible_row` of every bag at `offset` in place,
    /// through the usual take-in and publish; reports whether any store was
    /// found.
    pub fn pin_row(&mut self, offset: usize, visible_row: usize, views: &mut Vec<Bag>) -> (r: bool)
        requires
            old(self).wf(),
            old(views)@.len() == old(self).entries_of().len(),
        ensures
            final(self).wf(),
            r == first_at_offset(old(self).entries_of(), offset, 0) is Some,
            final(self).entries_of().len() == old(self).entries_of().len(),
            final(views)@.len() == old(views)@.len(),
            forall|k: int|
                0 <= k < old(views)@.len() ==> if old(self).entries_of()[k].offset == offset {
                    entry_synced(
                        #[trigger] old(self).entries_of()[k],
                        final(self).entries_of()[k],
                        old(views)@[k],
                        final(views)@[k],
                        Adjust::Pin(visible_row),
                        true,
                    )
                } else {
                    final(self).entries_of()[k] == old(self).entries_of()[k] && final(views)@[k]
                        == old(views)@[k]
                },
            final(self).capacity_of() == old(self).capacity_of(),
            final(self).pending_of() == old(self).pending_of(),
            final(self).matched_of() == old(self).matched_of(),
    {
        let found = self.any_at_offset(offset);
        self.sync_each(Some(offset), Adjust::Pin(visible_row), true, views);
        found
    }

    /// Releases the held row of every bag at `offset`, keeping visible slot
    /// `keep` showing what it shows now where possible; reports whether any
    /// store was found.
    pub fn unpin(&mut self, offset: usize, keep: Option<usize>, views: &mut Vec<Bag>) -> (r: bool)
        requires
            old(self).wf(),
            old(views)@.len() == old(self).entries_of().len(),
        ensures
            final(self).wf(),
            r == first_at_offset(old(self).entries_of(), offset, 0) is Some,
            final(self).entries_of().len() == old(self).entries_of().len(),
            final(views)@.len() == old(views)@.len(),
            forall|k: int|
                0 <= k < old(views)@.len() ==> if old(self).entries_of()[k].offset == offset {
                    entry_synced(
                        #[trigger] old(self).entries_of()[k],
                        final(self).entries_of()[k],
                        old(views)@[k],
                        final(views)@[k],
                        Adjust::Unpin(keep),
                        true,
                    )
                } else {
                    final(self).entries_of()[k] == old(self).entries_of()[k] && final(views)@[k]
                        == old(views)@[k]
                },
            final(self).capacity_of() == old(self).capacity_of(),
            final(self).pending_of() == old(self).pending_of(),
            final(self).matched_of() == old(self).matched_of(),
    {
        let found = self.any_at_offset(offset);
        self.sync_each(Some(offset), Adjust::Unpin(keep), true, views);
        found
    }

    /// Brings every store's window back onto its equipped item, if it left
    /// it. Out in the world the game reads the equipped slot off the bag and
    /// holsters what it cannot see.
    pub fn keep_equipped_visible_all(&mut self, views: &mut Vec<Bag>)
        requires
            old(self).wf(),
            old(views)@.len() == old(self).entries_of().len(),
        ensures
            final(self).wf(),
            final(self).entries_of().len() == old(self).entries_of().len(),
            final(views)@.len() == old(views)@.len(),
            forall|k: int|
                0 <= k < old(views)@.len() ==> entry_synced(
                    #[trigger] old(self).entries_of()[k],
                    final(self).entries_of()[k],
                    old(views)@[k],
                    final(views)@[k],
                    Adjust::KeepEquipped,
                    true,
                ),
            final(self).capacity_of() == old(self).capacity_of(),
            final(self).pending_of() == old(self).pending_of(),
            final(self).matched_of() == old(self).matched_of(),
    {
        self.sync_each(None, Adjust::KeepEquipped, true, views);
    }

    /// Sends every window back to the first slot, to wrap around at the end
    /// of the list. Returns how many moved.
    pub fn rewind_all(&mut self, views: &mut Vec<Bag>) -> (r: usize)
        requires
            old(self).wf(),
            old(views)@.len() == old(self).entries_of().len(),
        ensures
            final(self).wf(),
            final(self).entries_of().len() == old(self).entries_of().len(),
            final(views)@.len() == old(views)@.len(),
            forall|k: int|
                0 <= k < old(views)@.len() ==> entry_synced(
                    #[trigger] old(self).entries_of()[k],
                    final(self).entries_of()[k],
                    old(views)@[k],
                    final(views)@[k],
                    Adjust::Rewind,
                    false,
                ),
            r == moved_count(
                old(self).entries_of(),
                final(self).entries_of(),
                old(self).entries_of().len() as int,
            ),
            final(self).capacity_of() == old(self).capacity_of(),
            final(self).pending_of() == old(self).pending_of(),
            final(self).matched_of() == old(self).matched_of(),
    {
        self.sync_each(None, Adjust::Rewind, false, views)
    }

    /// Every store as it stands, for writing to the side file: each takes in
    /// its view first, so what is recorded is what the player has now. Gives
    /// the bag offset, the window position and the items of each.
    pub fn snapshot(&mut self, views: &Vec<Bag>) -> (r: Vec<(usize, usize, Vec<Item>)>)
        requires
            old(self).wf(),
            views@.len() == old(self).entries_of().len(),
        ensures
            final(self).wf(),
            final(self).entries_of().len() == old(self).entries_of().len(),
            forall|k: int|
                0 <= k < views@.len() ==> entry_synced(
                    #[trigger] old(self).entries_of()[k],
                    final(self).entries_of()[k],
                    views@[k],
                    views@[k],
                    Adjust::Nothing,
                    false,
                ),
            r@.len() == views@.len(),
            forall|k: int|
                0 <= k < r@.len() ==> {
                    let e = final(self).entries_of()[k];
                    &&& (#[trigger] r@[k]).0 == e.offset
                    &&& r@[k].1 == e.window.pos()
                    &&& r@[k].2@ == e.window.items()
                },
            final(self).capacity_of() == old(self).capacity_of(),
            final(self).pending_of() == old(self).pending_of(),
            final(self).matched_of() == old(self).matched_of(),
    {
        let mut copies = views.clone();
        assert(copies@ =~= views@);
        self.sync_each(None, Adjust::Nothing, false, &mut copies);
        let mut out: Vec<(usize, usize, Vec<Item>)> = Vec::new();
        let mut k: usize = 0;
        while k < self.entries.len()
            invariant
                self.wf(),
                k <= self.entries@.len(),
                out@.len() == k,
                forall|j: int|
                    0 <= j < k ==> {
                        let e = self.entries_of()[j];
                        &&& (#[trigger] out@[j]).0 == e.offset
                        &&& out@[j].1 == e.window.pos()
                        &&& out@[j].2@ == e.window.items()
                    },
            decreases self.entries@.len() - k,
        {
            let items = self.contents(k);
            let e = &self.entries[k];
            out.push((e.offset, e.window.position(), items));
            k += 1;
        }
        out
    }
}

impl Registry {
    /// The index of the first store whose view is at `view`.
    fn find_view(&self, view: usize) -> (r: Option<usize>)
        ensures
            match r {
                Some(k) => first_with_view(self.entries_of(), view, 0) == Some(k as int),
                None => first_with_view(self.entries_of(), view, 0) is None,
            },
    {
        let mut k: usize = 0;
        while k < self.entries.len()
            invariant
                k <= self.entries@.len(),
                first_with_view(self.entries_of(), view, 0) == first_with_view(
                    self.entries_of(),
                    view,
                    k as int,
                ),
            decreases self.entries@.len() - k,
        {
            if self.entries[k].view == view {
                return Some(k);
            }
            k += 1;
        }
        None
    }

    /// Answers `query` against the store behind the view at `view`, which
    /// holds `current`: takes the view in, answers, and returns the answer
    /// with the bag to publish.
    ///
    /// `None` when the address is not one of ours, which happens whenever the
    /// game reached a bag by a route nobody intercepts; the caller then falls
    /// back to the bag itself rather than guessing.
    pub fn with_view(&mut self, view: usize, current: Bag, query: Query) -> (r: Option<(i32, Bag)>)
        requires
            old(self).wf(),
        ensures
            final(self).wf(),
            final(self).capacity_of() == old(self).capacity_of(),
            final(self).pending_of() == old(self).pending_of(),
            final(self).matched_of() == old(self).matched_of(),
            final(self).entries_of().len() == old(self).entries_of().len(),
            match first_with_view(old(self).entries_of(), view, 0) {
                None => r is None && final(self).entries_of() == old(self).entries_of(),
                Some(k) => {
                    let b = old(self).entries_of()[k];
                    let a = final(self).entries_of()[k];
                    &&& r is Some
                    &&& view_answered(b.window, a.window, current, query, (r->0).0 as int, (r->0).1)
                    &&& a.owner == b.owner && a.offset == b.offset && a.view == b.view && a.mirror
                        == b.mirror
                    &&& forall|j: int|
                        0 <= j < old(self).entries_of().len() && j != k
                            ==> #[trigger] final(self).entries_of()[j] == old(self).entries_of()[j]
                },
            },
    {
        let k = match self.find_view(view) {
            Some(k) => k,
            None => {
                return None;
            },
        };
        let ghost before_entries = self.entries@;
        proof {
            lemma_first_with_view_range(self.entries_of(), view, 0);
            assert(self.entries_of()[k as int].window.wf());
        }
        let mut entry = self.entries.remove(k);
        let mut bag = current;
        entry.window.read_from(&bag);
        let ghost taken = entry.window;
        let answer: i32 = match query {
            Query::CountEmpty => {
                let room = promised_room(&entry.window);
                room as i32
            },
            Query::FirstEmpty { two_slot } => seek_slot(&mut entry.window, two_slot),
        };
        entry.window.write_into(&mut bag);
        self.entries.insert(k, entry);
        proof {
            assert(self.entries@ =~= before_entries.update(k as int, entry));
            lemma_entry_replaced(before_entries, k as int, entry);
            assert(read_back(before_entries[k as int].window, current, taken));
            assert(answered(query, taken, entry.window, answer as int));
            assert(published(entry.window, current, bag));
            assert(self.entries_of()[k as int] == entry);
            assert(view_answered(before_entries[k as int].window, entry.window, current, query, answer as int, bag));
        }
        Some((answer, bag))
    }
}

/// Whether `start` and `seen` are what the store and the view hold before
/// the staged restores are offered: the store as it was and the view as the
/// game left it; or, for a new store or one whose bag the game rewrote behind
/// the registry's back, a fresh store seeded from the game's bag, which is also
/// what the view then holds.
pub open spec fn seeded(
    entries: Seq<Entry>,
    capacity: usize,
    k: int,
    existed: bool,
    own: Bag,
    view_now: Bag,
    start: Window,
    seen: Bag,
) -> bool {
    if existed && entries[k].mirror.same(own) {
        same_window(start, entries[k].window) && start.wf() && seen == view_now
    } else {
        &&& seen == own
        &&& exists|blank: Window|
            #![trigger read_back(blank, own, start)]
            fresh(
                blank,
                if existed {
                    entries[k].window.cap()
                } else {
                    capacity as int
                },
            ) && read_back(blank, own, start)
    }
}

/// One pass of the accessor for the store at `k`: seed, offer the staged
/// restores, then take the view in and publish it, bringing the window back
/// onto the equipped item when out in the world.
pub open spec fn view_cycle(
    before: Registry,
    k: int,
    existed: bool,
    own: Bag,
    view_now: Bag,
    now: u64,
    world: bool,
    after: Registry,
    out: Bag,
) -> bool {
    exists|start: Window, seen: Bag, staged: Window|
        #![trigger seeded(before.entries_of(), before.capacity_of(), k, existed, own, view_now, start, seen), staged_step(before.pending_of(), now, after.entries_of()[k].offset, own, start, staged, after.pending_of(), before.matched_of(), after.matched_of())]
        seeded(before.entries_of(), before.capacity_of(), k, existed, own, view_now, start, seen)
            && staged_step(
            before.pending_of(),
            now,
            after.entries_of()[k].offset,
            own,
            start,
            staged,
            after.pending_of(),
            before.matched_of(),
            after.matched_of(),
        ) && synced(
            staged,
            seen,
            if world {
                Adjust::KeepEquipped
            } else {
                Adjust::Nothing
            },
            after.entries_of()[k].window,
            out,
        )
}

proof fn lemma_rounded_fits(c: int)
    requires
        0 <= c <= MAX_SLOTS,
    ensures
        rounded_capacity(c) <= MAX_SLOTS,
{
}

/// Whether two item lists are equal, element by element.
fn same_items(a: &[Item], b: &[Item]) -> (r: bool)
    ensures
        r == (a@ == b@),
{
    if a.len() != b.len() {
        assert(a@.len() != b@.len());
        return false;
    }
    let mut i: usize = 0;
    while i < a.len()
        invariant
            i <= a@.len(),
            a@.len() == b@.len(),
            forall|j: int| 0 <= j < i ==> a@[j] == b@[j],
        decreases a@.len() - i,
    {
        if a[i] != b[i] {
            assert(a@[i as int] != b@[i as int]);
            return false;
        }
        i += 1;
    }
    assert(a@ =~= b@);
    true
}

impl Registry {
    /// Offers the staged restores to the store at `k`, whose game bag holds
    /// `own`. Expired restores are dropped first; then the first live one for
    /// this offset whose recorded six are the six the game restored replaces
    /// the store, widened to every item it recorded, and is kept, marked
    /// applied.
    fn apply_staged(&mut self, k: usize, own: &Bag, now: u64)
        requires
            old(self).wf(),
            k < old(self).entries_of().len(),
        ensures
            final(self).wf(),
            final(self).entries_of().len() == old(self).entries_of().len(),
            forall|j: int|
                0 <= j < old(self).entries_of().len() && j != k ==> #[trigger] final(self).entries_of()[j]
                    == old(self).entries_of()[j],
            final(self).entries_of()[k as int].owner == old(self).entries_of()[k as int].owner,
            final(self).entries_of()[k as int].offset == old(self).entries_of()[k as int].offset,
            final(self).entries_of()[k as int].view == old(self).entries_of()[k as int].view,
            final(self).entries_of()[k as int].mirror == old(self).entries_of()[k as int].mirror,
            staged_step(
                old(self).pending_of(),
                now,
                old(self).entries_of()[k as int].offset,
                *own,
                old(self).entries_of()[k as int].window,
                final(self).entries_of()[k as int].window,
                final(self).pending_of(),
                old(self).matched_of(),
                final(self).matched_of(),
            ),
            final(self).capacity_of() == old(self).capacity_of(),
    {
        let ghost start = *self;
        let mut waiting: Vec<Staged> = Vec::new();
        std::mem::swap(&mut waiting, &mut self.pending);
        let ghost orig = waiting@;
        let mut kept: Vec<Staged> = Vec::new();
        let ghost mut n: int = 0;
        while waiting.len() > 0
            invariant
                0 <= n <= orig.len(),
                waiting@ == orig.skip(n),
                kept@ == live(orig.take(n), now),
                pending_wf(orig),
                pending_wf(kept@),
            decreases waiting@.len(),
        {
            let staged = waiting.remove(0);
            proof {
                assert(orig.skip(n + 1) =~= orig.skip(n).remove(0));
                assert(orig.take(n + 1).drop_last() =~= orig.take(n));
                assert(orig.take(n + 1).last() == staged);
            }
            let elapsed: u64 = if now >= staged.since {
                now - staged.since
            } else {
                0
            };
            if elapsed < STAGED_LIFETIME_MS {
                kept.push(staged);
            }
            proof {
                n = n + 1;
            }
        }
        proof {
            assert(orig.take(orig.len() as int) =~= orig);
        }
        let ghost l = kept@;
        let offset = self.entries[k].offset;
        let mut i: usize = 0;
        while i < kept.len()
            invariant
                kept@ == l,
                i <= kept@.len(),
                first_match(l, offset, own.items@, 0) == first_match(l, offset, own.items@, i as int),
            ensures
                i <= kept@.len(),
                first_match(l, offset, own.items@, 0) == (if i < kept@.len() {
                    Some(i as int)
                } else {
                    None
                }),
            decreases kept@.len() - i,
        {
            if kept[i].restore.offset == offset && same_items(
                kept[i].restore.expected_visible.as_slice(),
                own.items.as_slice(),
            ) {
                break;
            }
            i += 1;
        }
        if i < kept.len() {
            let ghost before_entries = self.entries@;
            proof {
                assert(self.entries_of()[k as int].window.wf());
            }
            let capacity = self.entries[k].window.store().capacity();
            let mut staged = kept.remove(i);
            proof {
                assert(l[i as int] == staged);
                assert(pending_wf(l));
                assert(staged.restore.items@.len() <= MAX_SLOTS);
            }
            let window = Window::with_items(capacity, staged.restore.items.as_slice(), staged.restore.position);
            staged.applied = true;
            kept.insert(i, staged);
            let mut entry = self.entries.remove(k);
            entry.window = window;
            self.entries.insert(k, entry);
            self.matched = true;
            proof {
                assert(kept@ =~= l.update(i as int, Staged { restore: l[i as int].restore, since: l[i as int].since, applied: true }));
                assert(self.entries@ =~= before_entries.update(k as int, entry));
                lemma_rounded_fits(if capacity < staged.restore.items@.len() { staged.restore.items@.len() as int } else { capacity as int });
                lemma_entry_replaced(before_entries, k as int, entry);
                assert forall|j: int| 0 <= j < kept@.len() implies (#[trigger] kept@[j]).restore.items@.len() <= MAX_SLOTS by {
                    assert(kept@[j].restore == l[j].restore);
                }
            }
        }
        self.pending = kept;
    }

    /// The bag to hand the game in place of the one at `owner + offset`,
    /// which holds `own`, and where it lives.
    ///
    /// `view_now` is what the view already handed out for this bag holds, and
    /// `new_view` the address of a fresh view holding `own`, used when there
    /// is none yet. The first time a bag is seen its store is seeded from what
    /// the game has there, so an inventory that exists before is inherited
    /// rather than emptied. When the game rewrote its bag without going
    /// through the view, the store restarts from what it wrote. Staged
    /// restores are offered on every pass. `world` says the inventory screen
    /// is not showing, and the window comes back onto the equipped item.
    ///
    /// The host writes the returned bag into the view and into the game's own
    /// bag.
    pub fn view_for(
        &mut self,
        owner: usize,
        offset: usize,
        own: Bag,
        view_now: Bag,
        new_view: usize,
        now: u64,
        world: bool,
    ) -> (r: (usize, Bag))
        requires
            old(self).wf(),
            owner + offset <= usize::MAX,
        ensures
            final(self).wf(),
            has_entry(final(self).entries_of(), owner, offset),
            ({
                let k = entry_at(final(self).entries_of(), owner, offset);
                let existed = has_entry(old(self).entries_of(), owner, offset);
                &&& existed ==> final(self).entries_of().len() == old(self).entries_of().len() && k
                    == entry_at(old(self).entries_of(), owner, offset) && final(self).entries_of()[k].view
                    == old(self).entries_of()[k].view
                &&& !existed ==> final(self).entries_of().len() == old(self).entries_of().len() + 1
                    && k == old(self).entries_of().len() && final(self).entries_of()[k].view == new_view
                &&& forall|j: int|
                    0 <= j < old(self).entries_of().len() && j != k
                        ==> #[trigger] final(self).entries_of()[j] == old(self).entries_of()[j]
                &&& r.0 == final(self).entries_of()[k].view
                &&& r.1 == final(self).entries_of()[k].mirror
                &&& view_cycle(*old(self), k, existed, own, view_now, now, world, *final(self), r.1)
            }),
            final(self).capacity_of() == old(self).capacity_of(),
    {
        let ghost start = *self;
        let existing = self.find(owner, offset);
        let ghost existed = existing is Some;
        let mut seen: Bag = view_now;
        let k: usize = match existing {
            Some(i) => i,
            None => {
                proof {
                    lemma_rounded_fits(self.capacity as int);
                }
                let mut window = Window::new(self.capacity);
                window.read_from(&own);
                let ghost before_entries = self.entries@;
                self.entries.push(Entry { owner, offset, view: new_view, mirror: own, window });
                proof {
                    lemma_entry_pushed(before_entries, self.entries@.last());
                    assert(self.entries@ =~= before_entries.push(self.entries@.last()));
                }
                seen = own;
                self.entries.len() - 1
            },
        };
        let ghost first = *self;
        proof {
            assert(self.entries_of()[k as int].window.wf());
        }
        if !self.entries[k].mirror.equals(&own) {
            let capacity = self.entries[k].window.store().capacity();
            let ghost before_entries = self.entries@;
            let mut entry = self.entries.remove(k);
            let mut window = Window::new(capacity);
            window.read_from(&own);
            entry.window = window;
            self.entries.insert(k, entry);
            proof {
                assert(self.entries@ =~= before_entries.update(k as int, entry));
                lemma_entry_replaced(before_entries, k as int, entry);
            }
            seen = own;
        }
        let ghost seeded_self = *self;
        let ghost start_window = self.entries@[k as int].window;
        proof {
            assert(seeded(start.entries_of(), start.capacity_of(), k as int, existed, own, view_now, start_window, seen));
        }
        self.apply_staged(k, &own, now);
        let ghost staged_self = *self;
        let ghost staged_window = self.entries@[k as int].window;
        let ghost before_entries = self.entries@;
        proof {
            assert(self.entries_of()[k as int].window.wf());
        }
        let mut entry = self.entries.remove(k);
        let adjust = if world {
            Adjust::KeepEquipped
        } else {
            Adjust::Nothing
        };
        let (published, _) = entry.sync_with(seen, adjust);
        entry.mirror = published;
        let view = entry.view;
        self.entries.insert(k, entry);
        proof {
            assert(self.entries@ =~= before_entries.update(k as int, entry));
            lemma_entry_replaced(before_entries, k as int, entry);
            lemma_entry_at(self.entries_of(), k as int, owner, offset);
            if existed {
                lemma_entry_at(start.entries_of(), k as int, owner, offset);
            }
            assert(staged_step(
                start.pending_of(),
                now,
                self.entries_of()[k as int].offset,
                own,
                start_window,
                staged_window,
                self.pending_of(),
                start.matched_of(),
                self.matched_of(),
            ));
            assert(view_cycle(start, k as int, existed, own, view_now, now, world, *self, published));
        }
        (view, published)
    }
}


/// A search that shows the game a store one position at a time, asking at
/// each whether what it looks for is in view.
///
/// The game's own search only sees the six slots it is shown. Walking the
/// window across the store lets it find an item anywhere in the store, with
/// the game answering for each position; the host asks the game between
/// steps.
pub struct Probe {
    entry: usize,
    started_at: usize,
    next: usize,
}

impl Probe {
    /// Index of the store being searched.
    pub closed spec fn entry_of(&self) -> int {
        self.entry as int
    }

    /// Where the window stood before the search.
    pub closed spec fn start_of(&self) -> int {
        self.started_at as int
    }

    /// The position to show after the current one.
    pub closed spec fn next_of(&self) -> int {
        self.next as int
    }
}

/// What to do after the game answered for one position.
#[derive(Debug)]
pub enum ProbeStep {
    /// The game found it, at this visible slot; the window stays where it
    /// was found.
    Found(i32),
    /// Not here: publish this bag, the window at the next position, and ask
    /// again.
    Next(Bag),
    /// Not anywhere: publish this bag, the window back where it started.
    Done(Bag),
}

/// Whether `after` is `before` moved to position `p`, clamped as
/// `set_position` clamps, with nothing else changed.
pub open spec fn moved_to(before: Window, after: Window, p: int) -> bool {
    &&& after.wf()
    &&& after.slots() == before.slots()
    &&& after.equipped_index() == before.equipped_index()
    &&& after.held() == before.held()
    &&& after.pos() == if p - p % 2 < before.max_pos() {
        p - p % 2
    } else {
        before.max_pos()
    }
}

/// Whether `b` and `a` are the same store under a different window.
pub open spec fn same_entry_but_window(b: Entry, a: Entry) -> bool {
    a.owner == b.owner && a.offset == b.offset && a.view == b.view && a.mirror == b.mirror
}

impl Registry {
    /// Starts a search of the store behind the view at `view`, which holds
    /// `current`: takes the view in and shows the first position. Gives the
    /// search and the bag to publish before asking the game; `None` when the
    /// address is not one of ours.
    pub fn probe_positions(&mut self, view: usize, current: Bag) -> (r: Option<(Probe, Bag)>)
        requires
            old(self).wf(),
        ensures
            final(self).wf(),
            final(self).capacity_of() == old(self).capacity_of(),
            final(self).pending_of() == old(self).pending_of(),
            final(self).matched_of() == old(self).matched_of(),
            final(self).entries_of().len() == old(self).entries_of().len(),
            match first_with_view(old(self).entries_of(), view, 0) {
                None => r is None && final(self).entries_of() == old(self).entries_of(),
                Some(k) => {
                    let b = old(self).entries_of()[k];
                    let a = final(self).entries_of()[k];
                    &&& r matches Some((probe, out))
                    &&& probe.entry_of() == k
                    &&& probe.start_of() == b.window.pos()
                    &&& probe.next_of() == 2
                    &&& exists|taken: Window|
                        #![trigger read_back(b.window, current, taken)]
                        read_back(b.window, current, taken) && moved_to(taken, a.window, 0)
                    &&& published(a.window, current, out)
                    &&& same_entry_but_window(b, a)
                    &&& forall|j: int|
                        0 <= j < old(self).entries_of().len() && j != k
                            ==> #[trigger] final(self).entries_of()[j] == old(self).entries_of()[j]
                },
            },
    {
        let k = match self.find_view(view) {
            Some(k) => k,
            None => {
                return None;
            },
        };
        let ghost before_entries = self.entries@;
        proof {
            lemma_first_with_view_range(self.entries_of(), view, 0);
        }
        let mut entry = self.entries.remove(k);
        let mut bag = current;
        entry.window.read_from(&bag);
        let ghost taken = entry.window;
        let started_at = entry.window.position();
        entry.window.set_position(0);
        entry.window.write_into(&mut bag);
        self.entries.insert(k, entry);
        proof {
            assert(self.entries@ =~= before_entries.update(k as int, entry));
            lemma_entry_replaced(before_entries, k as int, entry);
            assert(read_back(before_entries[k as int].window, current, taken));
            assert(self.entries_of()[k as int] == entry);
        }
        Some((Probe { entry: k, started_at, next: 2 }, bag))
    }

    /// Goes on with `probe` once the game answered `answer` for the position
    /// last shown, the view now holding `current`. A negative answer is "not
    /// here". What the game left in the view while searching is not taken
    /// into the store: only the bag the next position is published onto.
    pub fn probe_step(&mut self, probe: &mut Probe, answer: i32, current: Bag) -> (r: ProbeStep)
        requires
            old(self).wf(),
            0 <= old(probe).entry_of() < old(self).entries_of().len(),
        ensures
            final(self).wf(),
            final(self).capacity_of() == old(self).capacity_of(),
            final(self).pending_of() == old(self).pending_of(),
            final(self).matched_of() == old(self).matched_of(),
            final(self).entries_of().len() == old(self).entries_of().len(),
            final(probe).entry_of() == old(probe).entry_of(),
            final(probe).start_of() == old(probe).start_of(),
            ({
                let k = old(probe).entry_of();
                let b = old(self).entries_of()[k];
                let a = final(self).entries_of()[k];
                &&& same_entry_but_window(b, a)
                &&& forall|j: int|
                    0 <= j < old(self).entries_of().len() && j != k
                        ==> #[trigger] final(self).entries_of()[j] == old(self).entries_of()[j]
                &&& if answer >= 0 {
                    r == ProbeStep::Found(answer) && a == b && final(probe).next_of() == old(probe).next_of()
                } else if old(probe).next_of() <= b.window.max_pos() {
                    &&& r matches ProbeStep::Next(out)
                    &&& moved_to(b.window, a.window, old(probe).next_of())
                    &&& published(a.window, current, out)
                    &&& final(probe).next_of() == old(probe).next_of() + 2
                } else {
                    &&& r matches ProbeStep::Done(out)
                    &&& moved_to(b.window, a.window, old(probe).start_of())
                    &&& published(a.window, current, out)
                    &&& final(probe).next_of() == old(probe).next_of()
                }
            }),
    {
        if answer >= 0 {
            return ProbeStep::Found(answer);
        }
        let k = probe.entry;
        let ghost before_entries = self.entries@;
        proof {
            assert(self.entries_of()[k as int].window.wf());
        }
        let mut entry = self.entries.remove(k);
        let mut bag = current;
        let max = entry.window.max_position();
        let step = if probe.next <= max {
            entry.window.set_position(probe.next);
            probe.next = probe.next + 2;
            true
        } else {
            entry.window.set_position(probe.started_at);
            false
        };
        entry.window.write_into(&mut bag);
        self.entries.insert(k, entry);
        proof {
            assert(self.entries@ =~= before_entries.update(k as int, entry));
            lemma_entry_replaced(before_entries, k as int, entry);
            assert(self.entries_of()[k as int] == entry);
        }
        if step {
            ProbeStep::Next(bag)
        } else {
            ProbeStep::Done(bag)
        }
    }
}

} // verus!
