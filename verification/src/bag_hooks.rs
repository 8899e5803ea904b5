//! What the game is told when it asks a bag for room.
//!
//! The game's `count_empty` and `first_empty` answer questions about a six-slot
//! bag, and the game acts on the answers inside that bag. So a count may never
//! promise more than one window position can show, and an index may never name
//! a slot the game cannot address, however many slots the store behind it has.
//! Where the store has the room but the window does not show it, the window
//! moves first.
//!
//! The game's `add_item` checks `count_empty` against two for a two-slot item,
//! writes the item at `first_empty`, and lays the pair out among the six slots
//! in view, asserting every index it touches against six.

use vstd::prelude::*;

use crate::inventory::{Bag, Item, BAG_SIZE};
use crate::item_box::ItemBox;
use crate::registry::{first_with_view, view_answered, Query, Registry};
use crate::slots::empties;
use crate::window::{
    empty_in_slots, empty_in_view, first_open, first_showing, law_reveal_shows_the_index,
    law_roomiest_is_unique, law_slot_and_index_translate_both_ways, revealed, roomiest, Window,
};

verus! {

/// What the game's own search returns when there is no empty slot.
pub const NO_EMPTY_SLOT: i32 = -1;

/// The call sites of `first_empty` that ask on behalf of a two-slot item,
/// known by their return addresses. Zero means not known.
pub struct CallSites {
    pub two_slot_callers: [usize; 2],
}

impl CallSites {
    /// No call site known yet.
    pub fn new() -> (r: CallSites)
        ensures
            r.two_slot_callers@ == seq![0usize, 0usize],
    {
        CallSites { two_slot_callers: [0, 0] }
    }

    /// Records the return addresses of the two-slot callers, read from the
    /// address table at install time.
    pub fn set_two_slot_callers(&mut self, callers: [usize; 2])
        ensures
            final(self).two_slot_callers == callers,
    {
        self.two_slot_callers = callers;
    }

    /// Whether a call returning to `called_from` asks for a two-slot item.
    pub fn is_two_slot_request(&self, called_from: usize) -> (r: bool)
        ensures
            r == (called_from != 0 && (self.two_slot_callers@[0] == called_from
                || self.two_slot_callers@[1] == called_from)),
    {
        called_from != 0 && (self.two_slot_callers[0] == called_from || self.two_slot_callers[1]
            == called_from)
    }
}

/// The first empty slot of `s` from `from` on.
pub open spec fn first_vacant(s: Seq<Item>, from: int) -> Option<int>
    decreases s.len() - from,
{
    if from < 0 || from >= s.len() {
        None
    } else if s[from].vacant() {
        Some(from)
    } else {
        first_vacant(s, from + 1)
    }
}

/// The position `roomiest_position` picks.
pub open spec fn roomiest_position_of(w: Window) -> int {
    choose|p: int| roomiest(w, p)
}

/// Where the window goes and which slot is named for a two-slot item: the
/// first empty slot at the roomiest position, or no slot and no move when no
/// position shows any room.
pub open spec fn two_slot_answer(w: Window) -> (int, int) {
    let p = roomiest_position_of(w);
    if empty_in_view(w, p) == 0 {
        (w.pos(), NO_EMPTY_SLOT as int)
    } else {
        match first_open(w, p, 0) {
            Some(s) => (p, s),
            None => (p, NO_EMPTY_SLOT as int),
        }
    }
}

/// Where the window goes and which slot is named for a one-slot item: the
/// first empty slot in view; failing that the store's first empty slot,
/// brought into view; failing that, none.
pub open spec fn single_answer(w: Window) -> (int, int) {
    match first_open(w, w.pos(), 0) {
        Some(s) => (w.pos(), s),
        None => match first_vacant(w.items(), 0) {
            None => (w.pos(), NO_EMPTY_SLOT as int),
            Some(i) => {
                let p = revealed(w, i);
                (
                    p,
                    match w.slot_of(p, i) {
                        Some(s) => s,
                        None => NO_EMPTY_SLOT as int,
                    },
                )
            },
        },
    }
}

proof fn lemma_first_vacant(s: Seq<Item>, from: int, i: int)
    requires
        0 <= from <= i <= s.len(),
        forall|j: int| from <= j < i ==> !(#[trigger] s[j]).vacant(),
    ensures
        i < s.len() && s[i].vacant() ==> first_vacant(s, from) == Some(i),
        i == s.len() ==> first_vacant(s, from) is None,
    decreases i - from,
{
    if from < i {
        lemma_first_vacant(s, from + 1, i);
    }
}

proof fn lemma_first_vacant_is_vacant(s: Seq<Item>, from: int)
    requires
        0 <= from,
    ensures
        first_vacant(s, from) matches Some(i) ==> from <= i < s.len() && s[i].vacant(),
        first_vacant(s, from) is None ==> forall|j: int| from <= j < s.len() ==> !(#[trigger] s[j]).vacant(),
    decreases s.len() - from,
{
    if from < s.len() && !s[from].vacant() {
        lemma_first_vacant_is_vacant(s, from + 1);
    }
}

proof fn lemma_first_open_is_open(w: Window, position: int, from: int)
    requires
        0 <= from,
    ensures
        first_open(w, position, from) matches Some(s) ==> from <= s < BAG_SIZE && w.slot_empty_at(
            position,
            s,
        ) && forall|k: int| from <= k < s ==> !#[trigger] w.slot_empty_at(position, k),
        first_open(w, position, from) is None ==> forall|k: int|
            from <= k < BAG_SIZE ==> !#[trigger] w.slot_empty_at(position, k),
    decreases BAG_SIZE - from,
{
    if from < BAG_SIZE && !w.slot_empty_at(position, from) {
        lemma_first_open_is_open(w, position, from + 1);
    }
}

proof fn lemma_open_depends_on_contents(a: Window, b: Window, position: int, from: int)
    requires
        a.slots() == b.slots(),
        a.held() == b.held(),
    ensures
        first_open(a, position, from) == first_open(b, position, from),
    decreases BAG_SIZE - from,
{
    if 0 <= from < BAG_SIZE {
        lemma_open_depends_on_contents(a, b, position, from + 1);
    }
}

proof fn lemma_empties_count_open_slots(w: Window, position: int, n: int)
    requires
        0 <= n <= BAG_SIZE,
    ensures
        empty_in_slots(w, position, n) <= n,
        (forall|k: int| 0 <= k < n ==> !#[trigger] w.slot_empty_at(position, k)) ==> empty_in_slots(
            w,
            position,
            n,
        ) == 0,
    decreases n,
{
    if n > 0 {
        lemma_empties_count_open_slots(w, position, n - 1);
    }
}

proof fn lemma_first_showing_range(w: Window, index: int, from: int)
    requires
        0 <= from,
        from % 2 == 0,
    ensures
        first_showing(w, index, from) matches Some(p) ==> from <= p <= w.max_pos() && p % 2 == 0,
    decreases w.max_pos() + 2 - from,
{
    if from <= w.max_pos() && w.slot_of(from, index) is None {
        lemma_first_showing_range(w, index, from + 2);
    }
}

/// The empty slots the game may be promised: what the roomiest window
/// position shows.
pub fn promised_room(window: &Window) -> (r: usize)
    requires
        window.wf(),
    ensures
        roomiest(*window, roomiest_position_of(*window)),
        r == empty_in_view(*window, roomiest_position_of(*window)),
        r <= BAG_SIZE,
{
    let (position, room) = window.roomiest_position();
    proof {
        law_roomiest_is_unique(*window, position as int, roomiest_position_of(*window));
        lemma_empties_count_open_slots(*window, position as int, BAG_SIZE as int);
    }
    room
}

/// The visible slot a caller may write into, moving the window if needed.
///
/// A single item goes to the first empty slot in view. When none is in view
/// but the store has room, the window jumps to it.
///
/// A two-slot item was just promised `promised_room` slots, and the game will
/// write it here and fit the pair among the six in view. So the window moves to
/// the position that promise was counted at, and the answer is the first empty
/// slot there.
pub fn seek_slot(window: &mut Window, two_slot: bool) -> (r: i32)
    requires
        old(window).wf(),
    ensures
        final(window).wf(),
        final(window).slots() == old(window).slots(),
        final(window).equipped_index() == old(window).equipped_index(),
        final(window).held() == old(window).held(),
        (final(window).pos(), r as int) == if two_slot {
            two_slot_answer(*old(window))
        } else {
            single_answer(*old(window))
        },
{
    let ghost w = *old(window);
    if two_slot {
        let (position, room) = window.roomiest_position();
        proof {
            law_roomiest_is_unique(w, position as int, roomiest_position_of(w));
        }
        if room == 0 {
            return NO_EMPTY_SLOT;
        }
        window.set_position(position);
        proof {
            lemma_open_depends_on_contents(w, *window, position as int, 0);
            lemma_first_open_is_open(w, position as int, 0);
            lemma_empties_count_open_slots(w, position as int, BAG_SIZE as int);
        }
        return match window.first_visible_empty() {
            Some(slot) => slot as i32,
            None => NO_EMPTY_SLOT,
        };
    }
    if let Some(slot) = window.first_visible_empty() {
        return slot as i32;
    }
    let found = window.store().first_empty();
    proof {
        lemma_first_vacant_is_vacant(w.items(), 0);
    }
    match found {
        None => {
            proof {
                lemma_first_vacant(w.items(), 0, w.items().len() as int);
            }
            NO_EMPTY_SLOT
        },
        Some(index) => {
            proof {
                lemma_first_vacant(w.items(), 0, index as int);
            }
            window.reveal_index(index);
            match window.visible_slot(index) {
                Some(slot) => slot as i32,
                None => NO_EMPTY_SLOT,
            }
        },
    }
}

/// How many of the bag's slots are empty: the game's own answer, used when no
/// store stands behind the bag.
pub fn visible_empty_count(bag: &Bag) -> (r: i32)
    ensures
        r == empties(bag.items@),
{
    let mut n: i32 = 0;
    let mut i: usize = 0;
    while i < BAG_SIZE
        invariant
            i <= BAG_SIZE,
            n == empties(bag.items@.take(i as int)),
            n <= i,
        decreases BAG_SIZE - i,
    {
        assert(bag.items@.take(i + 1).drop_last() =~= bag.items@.take(i as int));
        if bag.items[i].is_empty() {
            n += 1;
        }
        i += 1;
    }
    assert(bag.items@.take(BAG_SIZE as int) =~= bag.items@);
    n
}

/// The first empty slot of the bag, or `NO_EMPTY_SLOT`: the game's own answer.
pub fn visible_first_empty(bag: &Bag) -> (r: i32)
    ensures
        r == match first_vacant(bag.items@, 0) {
            Some(i) => i,
            None => NO_EMPTY_SLOT as int,
        },
{
    let mut i: usize = 0;
    while i < BAG_SIZE
        invariant
            i <= BAG_SIZE,
            forall|j: int| 0 <= j < i ==> !(#[trigger] bag.items@[j]).vacant(),
        decreases BAG_SIZE - i,
    {
        if bag.items[i].is_empty() {
            proof {
                lemma_first_vacant(bag.items@, 0, i as int);
            }
            return i as i32;
        }
        i += 1;
    }
    proof {
        lemma_first_vacant(bag.items@, 0, BAG_SIZE as int);
    }
    NO_EMPTY_SLOT
}

// --- Laws of the answers ---

/// The room promised is what one window position shows: never more than six,
/// and never more than the position the two-slot answer moves to shows.
pub proof fn law_promise_fits_one_window(w: Window, p: int)
    requires
        w.wf(),
        roomiest(w, p),
    ensures
        roomiest_position_of(w) == p,
        empty_in_view(w, p) <= BAG_SIZE,
        forall|q: int|
            0 <= q <= w.max_pos() && q % 2 == 0 ==> empty_in_view(w, q) <= empty_in_view(w, p),
        empty_in_view(w, p) > 0 ==> two_slot_answer(w).0 == p,
{
    law_roomiest_is_unique(w, p, roomiest_position_of(w));
    lemma_empties_count_open_slots(w, p, BAG_SIZE as int);
}

/// A two-slot item promised room for both halves is never named a slot
/// against the edge of the six: its partner slot exists.
pub proof fn law_two_slot_answer_leaves_room_for_the_pair(w: Window, p: int)
    requires
        w.wf(),
        roomiest(w, p),
        empty_in_view(w, p) >= 2,
    ensures
        0 <= two_slot_answer(w).1,
        two_slot_answer(w).1 + 1 < BAG_SIZE,
        w.slot_empty_at(p, two_slot_answer(w).1),
{
    law_roomiest_is_unique(w, p, roomiest_position_of(w));
    lemma_first_open_is_open(w, p, 0);
    lemma_empties_count_open_slots(w, p, BAG_SIZE as int);
    match first_open(w, p, 0) {
        Some(s) => {
            if s == BAG_SIZE - 1 {
                lemma_empties_count_open_slots(w, p, s);
                assert(empty_in_slots(w, p, s) == 0);
                assert(empty_in_slots(w, p, BAG_SIZE as int) <= 1);
            }
        },
        None => {},
    }
}

/// A slot named for a one-slot item is one of the six and shows an empty
/// store slot; and with no held row, no slot is named only when the store is
/// full.
pub proof fn law_single_answer_is_an_empty_slot(w: Window)
    requires
        w.wf(),
    ensures
        single_answer(w).1 == NO_EMPTY_SLOT || (0 <= single_answer(w).1 < BAG_SIZE
            && w.slot_empty_at(single_answer(w).0, single_answer(w).1)),
        w.held() is None ==> (single_answer(w).1 == NO_EMPTY_SLOT <==> first_vacant(
            w.items(),
            0,
        ) is None),
{
    lemma_first_open_is_open(w, w.pos(), 0);
    lemma_first_vacant_is_vacant(w.items(), 0);
    if let Some(s) = first_open(w, w.pos(), 0) {
        if w.held() is None {
            assert(w.index_of(w.pos(), s) == Some(w.pos() + s));
            assert(w.items()[w.pos() + s].vacant());
        }
    }
    if first_open(w, w.pos(), 0) is None {
        if let Some(i) = first_vacant(w.items(), 0) {
            let p = revealed(w, i);
            if w.held() is None {
                law_reveal_shows_the_index(w, i);
            } else {
                lemma_first_showing_range(w, i, 0);
            }
            law_slot_and_index_translate_both_ways(w, p, 0, i);
        }
    }
}

/// How many empty slots the game is told the bag at `view` has, which holds
/// `current`: counted across the store behind it and capped at what one window
/// position shows; the box's store when the view is the box's; and the bag's
/// own count when neither stands behind it. Gives the bag to publish when a
/// store answered.
pub fn count_empty(registry: &mut Registry, item_box: &mut ItemBox, view: usize, current: Bag) -> (r: (i32, Option<Bag>))
    requires
        old(registry).wf(),
        old(item_box).wf(),
    ensures
        final(registry).wf(),
        final(item_box).wf(),
        match first_with_view(old(registry).entries_of(), view, 0) {
            Some(k) => r.1 is Some && view_answered(
                old(registry).entries_of()[k].window,
                final(registry).entries_of()[k].window,
                current,
                Query::CountEmpty,
                r.0 as int,
                r.1->0,
            ),
            None => match old(item_box).stored() {
                Some(s) if s.view == view => r.1 is Some && (final(item_box).stored() matches Some(t)
                    && view_answered(s.window, t.window, current, Query::CountEmpty, r.0 as int, r.1->0)),
                _ => r == (empties(current.items@) as i32, None::<Bag>),
            },
        },
{
    match registry.with_view(view, current, Query::CountEmpty) {
        Some((answer, bag)) => (answer, Some(bag)),
        None => match item_box.with_window(view, current, Query::CountEmpty) {
            Some((answer, bag)) => (answer, Some(bag)),
            None => (visible_empty_count(&current), None),
        },
    }
}

/// A slot the game may write an item into, in the bag at `view` holding
/// `current`, or `NO_EMPTY_SLOT`; the call returning to `called_from` decides
/// whether it is for a two-slot item. Answered like `count_empty`: the store,
/// then the box, then the bag itself.
pub fn first_empty(
    registry: &mut Registry,
    item_box: &mut ItemBox,
    sites: &CallSites,
    view: usize,
    current: Bag,
    called_from: usize,
) -> (r: (i32, Option<Bag>))
    requires
        old(registry).wf(),
        old(item_box).wf(),
    ensures
        final(registry).wf(),
        final(item_box).wf(),
        ({
            let two_slot = called_from != 0 && (sites.two_slot_callers@[0] == called_from
                || sites.two_slot_callers@[1] == called_from);
            let q = Query::FirstEmpty { two_slot };
            match first_with_view(old(registry).entries_of(), view, 0) {
                Some(k) => r.1 is Some && view_answered(
                    old(registry).entries_of()[k].window,
                    final(registry).entries_of()[k].window,
                    current,
                    q,
                    r.0 as int,
                    r.1->0,
                ),
                None => match old(item_box).stored() {
                    Some(s) if s.view == view => r.1 is Some && (final(item_box).stored() matches Some(t)
                        && view_answered(s.window, t.window, current, q, r.0 as int, r.1->0)),
                    _ => r.1 is None && r.0 == match first_vacant(current.items@, 0) {
                        Some(i) => i,
                        None => NO_EMPTY_SLOT as int,
                    },
                },
            }
        }),
{
    let two_slot = sites.is_two_slot_request(called_from);
    let query = Query::FirstEmpty { two_slot };
    match registry.with_view(view, current, query) {
        Some((answer, bag)) => (answer, Some(bag)),
        None => match item_box.with_window(view, current, query) {
            Some((answer, bag)) => (answer, Some(bag)),
            None => (visible_first_empty(&current), None),
        },
    }
}

} // verus!
