//! The six-slot window the game sees.
//!
//! The game reads and writes a `Bag` and has no idea anything else exists. The
//! window copies six slots out of the store into that bag before the game looks,
//! and copies whatever the game left there back afterwards.
//!
//! The window position is always even. The inventory is drawn and navigated as
//! rows of two, so an odd position would put the two halves of every row in
//! different rows, and would let a two-slot item straddle the window edge in a
//! way the game cannot draw.

use vstd::prelude::*;

use crate::inventory::{Bag, Item, BAG_SIZE};
use crate::slots::{blank, overflow, repaired, rounded_capacity, Slots};

verus! {

/// What the game stores in the equipped index when nothing is equipped.
pub const NOTHING_EQUIPPED: i32 = -1;

/// Rows in the window. Two slots each.
pub const ROWS: usize = 3;

/// A visible row held on one store row while the other rows keep sliding.
#[derive(Clone, Copy, Debug, PartialEq, Eq, Structural)]
pub struct Pin {
    pub visible_row: usize,
    pub store_row: usize,
}

/// Store index that visible slot `slot` shows at `position`.
///
/// Without a pin the window is six consecutive slots. With one, the pinned
/// visible row always shows the pinned store row, and the other two show
/// consecutive rows of the store with the pinned row left out, counted from
/// `position`.
pub open spec fn index_at(pin: Option<Pin>, position: int, slot: int) -> Option<int> {
    if slot < 0 || slot >= BAG_SIZE {
        None
    } else {
        let row = slot / 2;
        let column = slot % 2;
        match pin {
            None => Some(position + slot),
            Some(p) => if row == p.visible_row {
                Some(p.store_row * 2 + column)
            } else {
                let order = if row < p.visible_row {
                    row
                } else {
                    row - 1
                };
                let sequence_row = position / 2 + order;
                let store_row = if sequence_row < p.store_row {
                    sequence_row
                } else {
                    sequence_row + 1
                };
                Some(store_row * 2 + column)
            },
        }
    }
}

/// Visible slot that store index `index` takes at `position`, if it is in view.
pub open spec fn slot_at(pin: Option<Pin>, position: int, index: int) -> Option<int> {
    match pin {
        None => if position <= index < position + BAG_SIZE {
            Some(index - position)
        } else {
            None
        },
        Some(p) => {
            let row = index / 2;
            let column = index % 2;
            if row == p.store_row {
                Some(p.visible_row * 2 + column)
            } else {
                let sequence_row = if row < p.store_row {
                    row
                } else {
                    row - 1
                };
                let order = sequence_row - position / 2;
                if order < 0 || order >= ROWS - 1 {
                    None
                } else {
                    let visible_row = if order < p.visible_row {
                        order
                    } else {
                        order + 1
                    };
                    Some(visible_row * 2 + column)
                }
            }
        },
    }
}

/// `rows` rows of two as a slot count.
pub open spec fn doubled(rows: i32) -> int {
    2 * rows
}

/// `v` clamped into `0..=hi`.
pub open spec fn clamped(v: int, hi: int) -> int {
    if v < 0 {
        0
    } else if v > hi {
        hi
    } else {
        v
    }
}

/// Number of the six slots in view at `position` that are empty or past the end.
pub open spec fn empty_in_view(w: Window, position: int) -> nat
    decreases BAG_SIZE,
{
    empty_in_slots(w, position, BAG_SIZE as int)
}

/// Empty slots among the first `n` visible at `position`.
pub open spec fn empty_in_slots(w: Window, position: int, n: int) -> nat
    decreases n,
{
    if n <= 0 {
        0
    } else {
        empty_in_slots(w, position, n - 1) + if w.slot_empty_at(position, n - 1) {
            1nat
        } else {
            0nat
        }
    }
}

/// The first even position from `from` on, up to the last full window, at
/// which store index `index` is in view.
pub open spec fn first_showing(w: Window, index: int, from: int) -> Option<int>
    decreases w.max_pos() + 2 - from,
{
    if from < 0 || from > w.max_pos() {
        None
    } else if w.slot_of(from, index) is Some {
        Some(from)
    } else {
        first_showing(w, index, from + 2)
    }
}

/// The first visible slot from `from` on that is empty at `position`.
pub open spec fn first_open(w: Window, position: int, from: int) -> Option<int>
    decreases BAG_SIZE - from,
{
    if from < 0 || from >= BAG_SIZE {
        None
    } else if w.slot_empty_at(position, from) {
        Some(from)
    } else {
        first_open(w, position, from + 1)
    }
}

/// Whether `p` is the position `roomiest_position` picks: an even position
/// showing the most empty slots, the current one when it ties, and otherwise
/// the earliest.
pub open spec fn roomiest(w: Window, p: int) -> bool {
    &&& p % 2 == 0
    &&& 0 <= p <= w.max_pos()
    &&& forall|q: int|
        0 <= q <= w.max_pos() && q % 2 == 0 ==> empty_in_view(w, q) <= empty_in_view(w, p)
    &&& empty_in_view(w, w.pos()) == empty_in_view(w, p) ==> p == w.pos()
    &&& empty_in_view(w, w.pos()) < empty_in_view(w, p) ==> forall|q: int|
        0 <= q < p && q % 2 == 0 ==> empty_in_view(w, q) < empty_in_view(w, p)
}

/// Where `reveal_index(index)` moves the window.
pub open spec fn revealed(w: Window, index: int) -> int {
    if w.held() is Some {
        if w.slot_of(w.pos(), index) is Some {
            w.pos()
        } else {
            match first_showing(w, index, 0) {
                Some(p) => p,
                None => w.pos(),
            }
        }
    } else {
        revealed_plain(w.pos(), index, w.max_pos())
    }
}

/// Whether `w` is a fresh window over `capacity` slots, as `new` makes.
pub open spec fn fresh(w: Window, capacity: int) -> bool {
    &&& w.wf()
    &&& w.items() == blank(rounded_capacity(capacity) as nat)
    &&& w.pos() == 0
    &&& w.equipped_index() is None
    &&& w.held() is None
}

/// Whether `after` is `before` with the game's `bag` taken back in, as
/// `read_from` does.
pub open spec fn read_back(before: Window, bag: Bag, after: Window) -> bool {
    &&& after.wf()
    &&& after.cap() == before.cap()
    &&& after.items() == stored(before.items(), before.held(), before.pos(), bag.items@, BAG_SIZE as int)
    &&& after.pos() == before.pos()
    &&& after.held() == before.held()
    &&& after.equipped_index() == (if 0 <= bag.equipped_index < BAG_SIZE {
        Some(before.index_of(before.pos(), bag.equipped_index as int)->0 as usize)
    } else {
        match before.equipped_index() {
            Some(i) => if before.slot_of(before.pos(), i as int) is Some {
                None
            } else {
                Some(i)
            },
            None => None,
        }
    })
}

/// Whether `after` is `before` with the window's six slots and equipped slot
/// written over it, as `write_into` does.
pub open spec fn published(w: Window, before: Bag, after: Bag) -> bool {
    &&& forall|k: int| 0 <= k < BAG_SIZE ==> #[trigger] after.items@[k] == w.shown(k)
    &&& after.unknown00 == before.unknown00
    &&& after.personal_item == before.personal_item
    &&& after.equipped_index == (match w.equipped_index() {
        Some(i) => match w.slot_of(w.pos(), i as int) {
            Some(s) => s,
            None => NOTHING_EQUIPPED as int,
        },
        None => NOTHING_EQUIPPED as int,
    })
}

/// Whether two windows hold the same store, position, equipped item and
/// held row.
pub open spec fn same_window(a: Window, b: Window) -> bool {
    &&& a.items() == b.items()
    &&& a.pos() == b.pos()
    &&& a.equipped_index() == b.equipped_index()
    &&& a.held() == b.held()
}

/// Whether `after` is `before` brought back onto its equipped item, as
/// `keep_equipped_visible` does.
pub open spec fn back_on_equipped(before: Window, after: Window) -> bool {
    &&& after.wf()
    &&& after.items() == before.items()
    &&& after.equipped_index() == before.equipped_index()
    &&& after.held() == before.held()
    &&& after.pos() == match before.equipped_index() {
        Some(i) => if before.slot_of(before.pos(), i as int) is None && i < usize::MAX {
            revealed(before, i as int)
        } else {
            before.pos()
        },
        None => before.pos(),
    }
}

/// Whether `w` is a window over `items` at `position`, as `with_items` makes.
pub open spec fn holding(w: Window, capacity: int, items: Seq<Item>, position: int) -> bool {
    &&& w.wf()
    &&& w.cap() == rounded_capacity(if capacity < items.len() {
        items.len() as int
    } else {
        capacity
    })
    &&& forall|i: int| 0 <= i < items.len() ==> #[trigger] w.items()[i] == items[i]
    &&& forall|i: int| items.len() <= i < w.cap() ==> #[trigger] w.items()[i] == Item::spec_empty()
    &&& w.pos() == (if position - position % 2 < w.max_pos() {
        position - position % 2
    } else {
        w.max_pos()
    })
    &&& w.equipped_index() is None
    &&& w.held() is None
}

/// The store after the game's six slots are copied back into it, slot by slot,
/// for the first `n` visible slots.
pub open spec fn stored(items: Seq<Item>, pin: Option<Pin>, position: int, bag: Seq<Item>, n: int) -> Seq<Item>
    decreases n,
{
    if n <= 0 {
        items
    } else {
        let before = stored(items, pin, position, bag, n - 1);
        match index_at(pin, position, n - 1) {
            Some(i) => if 0 <= i < before.len() {
                before.update(i, bag[n - 1])
            } else {
                before
            },
            None => before,
        }
    }
}

/// Where an unpinned window moves to bring `index` into view.
pub open spec fn revealed_plain(position: int, index: int, max: int) -> int {
    if index < position {
        index - index % 2
    } else if index >= position + BAG_SIZE {
        let first = index + 1 - BAG_SIZE;
        let up = if first % 2 == 0 {
            first
        } else {
            first + 1
        };
        if up < max {
            up
        } else {
            max
        }
    } else {
        position
    }
}

/// First index in `s` holding exactly `item`.
pub open spec fn index_of_item(s: Seq<Item>, item: Item, from: int) -> Option<int>
    decreases s.len() - from,
{
    if from < 0 || from >= s.len() {
        None
    } else if s[from] == item {
        Some(from)
    } else {
        index_of_item(s, item, from + 1)
    }
}

/// First index in `items` holding exactly `item`.
fn first_index_of(items: &[Item], item: Item) -> (r: Option<usize>)
    ensures
        match index_of_item(items@, item, 0) {
            Some(j) => r == Some(j as usize),
            None => r is None,
        },
{
    let mut k: usize = 0;
    while k < items.len()
        invariant
            k <= items@.len(),
            index_of_item(items@, item, 0) == index_of_item(items@, item, k as int),
        decreases items@.len() - k,
    {
        if items[k] == item {
            return Some(k);
        }
        k += 1;
    }
    None
}

pub struct Window {
    store: Slots,
    /// First store index the game can see. Always even.
    ///
    /// While a row is pinned, this counts through the store's rows with the
    /// pinned one left out, so the two free rows show consecutive rows of
    /// everything else; the bounds are unchanged either way.
    position: usize,
    /// Store index of the equipped item, if anything is equipped.
    ///
    /// The game keeps this as a slot number between 0 and 5, which only means
    /// anything relative to what the window is showing. Scrolling the contents
    /// underneath it without translating leaves the game holding a slot number
    /// that now points at a different item, or at nothing.
    equipped: Option<usize>,
    pin: Option<Pin>,
}

impl Window {
    pub closed spec fn slots(&self) -> Slots {
        self.store
    }

    pub closed spec fn pos(&self) -> int {
        self.position as int
    }

    pub closed spec fn equipped_index(&self) -> Option<usize> {
        self.equipped
    }

    pub closed spec fn held(&self) -> Option<Pin> {
        self.pin
    }

    /// The store's slots.
    pub open spec fn items(&self) -> Seq<Item> {
        self.slots().contents()
    }

    pub open spec fn cap(&self) -> int {
        self.items().len() as int
    }

    pub open spec fn max_pos(&self) -> int {
        self.cap() - BAG_SIZE
    }

    /// What every window keeps: an even store of at least six slots, an even
    /// position no further than the last full window, and a held row that
    /// names a row of the window and a row of the store.
    pub open spec fn wf(&self) -> bool {
        &&& self.slots().wf()
        &&& self.cap() <= usize::MAX
        &&& self.pos() % 2 == 0
        &&& 0 <= self.pos() <= self.max_pos()
        &&& match self.held() {
            Some(p) => p.visible_row < ROWS && p.store_row < self.cap() / 2,
            None => true,
        }
    }

    /// Store index shown in visible slot `slot` at `position`.
    pub open spec fn index_of(&self, position: int, slot: int) -> Option<int> {
        index_at(self.held(), position, slot)
    }

    /// Visible slot showing store index `index` at `position`.
    pub open spec fn slot_of(&self, position: int, index: int) -> Option<int> {
        slot_at(self.held(), position, index)
    }

    /// Whether visible slot `slot` shows nothing at `position`.
    pub open spec fn slot_empty_at(&self, position: int, slot: int) -> bool {
        match self.index_of(position, slot) {
            Some(i) => i >= self.cap() || self.items()[i].vacant(),
            None => true,
        }
    }

    /// What visible slot `slot` shows at the current position.
    pub open spec fn shown(&self, slot: int) -> Item {
        match self.index_of(self.pos(), slot) {
            Some(i) => if 0 <= i < self.cap() {
                self.items()[i]
            } else {
                Item::spec_empty()
            },
            None => Item::spec_empty(),
        }
    }

    pub fn new(capacity: usize) -> (r: Window)
        requires
            capacity < usize::MAX,
        ensures
            r.wf(),
            r.items() == blank(rounded_capacity(capacity as int) as nat),
            r.pos() == 0,
            r.equipped_index() is None,
            r.held() is None,
            fresh(r, capacity as int),
    {
        Window { store: Slots::new(capacity), position: 0, equipped: None, pin: None }
    }

    /// A window over the given items, at the given position.
    ///
    /// The capacity grows to fit the items rather than truncating them. The
    /// items come from a file recording what the player owned; a configuration
    /// that shrank since then is not a licence to delete things, and a larger
    /// window is the only answer that keeps everything.
    pub fn with_items(capacity: usize, items: &[Item], position: usize) -> (r: Window)
        requires
            capacity < usize::MAX,
            items@.len() < usize::MAX,
        ensures
            r.wf(),
            r.cap() == rounded_capacity(if capacity < items@.len() {
                items@.len() as int
            } else {
                capacity as int
            }),
            forall|i: int| 0 <= i < items@.len() ==> #[trigger] r.items()[i] == items@[i],
            forall|i: int| items@.len() <= i < r.cap() ==> #[trigger] r.items()[i] == Item::spec_empty(),
            r.pos() == (if position - position % 2 < r.max_pos() {
                position - position % 2
            } else {
                r.max_pos()
            }),
            r.equipped_index() is None,
            r.held() is None,
            holding(r, capacity as int, items@, position as int),
    {
        let c = if capacity < items.len() {
            items.len()
        } else {
            capacity
        };
        let mut window = Window::new(c);
        let mut index: usize = 0;
        while index < items.len()
            invariant
                window.wf(),
                index <= items@.len(),
                window.cap() == rounded_capacity(c as int),
                c >= items@.len(),
                window.pos() == 0,
                window.equipped_index() is None,
                window.held() is None,
                forall|i: int| 0 <= i < index ==> #[trigger] window.items()[i] == items@[i],
                forall|i: int| index <= i < window.cap() ==> #[trigger] window.items()[i] == Item::spec_empty(),
            decreases items@.len() - index,
        {
            window.store.set(index, items[index]);
            index += 1;
        }
        window.set_position(position);
        window
    }

    /// Store index of the equipped item.
    pub fn equipped(&self) -> (r: Option<usize>)
        ensures
            r == self.equipped_index(),
    {
        self.equipped
    }

    pub fn store(&self) -> (r: &Slots)
        ensures
            *r == self.slots(),
    {
        &self.store
    }

    pub fn store_mut(&mut self) -> (r: &mut Slots)
        ensures
            *r == old(self).slots(),
            final(self).slots() == *final(r),
            final(self).pos() == old(self).pos(),
            final(self).equipped_index() == old(self).equipped_index(),
            final(self).held() == old(self).held(),
    {
        &mut self.store
    }

    pub fn position(&self) -> (r: usize)
        ensures
            r == self.pos(),
    {
        self.position
    }

    /// Highest position that still shows a full window.
    ///
    /// Scrolling past this would show empty space beyond the end of the store
    /// rather than more items.
    pub fn max_position(&self) -> (r: usize)
        ensures
            r == (if self.cap() >= BAG_SIZE {
                self.cap() - BAG_SIZE
            } else {
                0
            }),
    {
        self.store.capacity().saturating_sub(BAG_SIZE)
    }

    /// Whether there is anything to scroll to at all.
    pub fn is_scrollable(&self) -> (r: bool)
        ensures
            r == (self.cap() > BAG_SIZE),
    {
        self.store.capacity() > BAG_SIZE
    }
}


impl Window {
    /// Moves the window by `rows` rows of two, clamped to the store.
    ///
    /// Returns whether the position actually changed, which is what decides
    /// between playing the movement sound and the rejection sound.
    pub fn scroll_rows(&mut self, rows: i32) -> (r: bool)
        requires
            old(self).wf(),
        ensures
            final(self).wf(),
            final(self).pos() == clamped(old(self).pos() + doubled(rows), old(self).max_pos()),
            r == (final(self).pos() != old(self).pos()),
            final(self).slots() == old(self).slots(),
            final(self).equipped_index() == old(self).equipped_index(),
            final(self).held() == old(self).held(),
    {
        let delta: i128 = (rows as i128) * 2;
        let target: i128 = (self.position as i128) + delta;
        let max = self.max_position() as i128;
        let bounded: i128 = if target < 0 {
            0
        } else if target > max {
            max
        } else {
            target
        };
        let bounded = bounded as usize;
        let changed = bounded != self.position;
        self.position = bounded;
        changed
    }

    /// Every position the window can rest at, in order.
    pub fn positions(&self) -> (r: Vec<usize>)
        requires
            self.wf(),
        ensures
            r@.len() == self.max_pos() / 2 + 1,
            forall|k: int| 0 <= k < r@.len() ==> #[trigger] r@[k] == 2 * k,
    {
        let max = self.max_position();
        let mut out: Vec<usize> = Vec::new();
        let mut p: usize = 0;
        while p <= max
            invariant
                max == self.max_pos(),
                max % 2 == 0,
                max + 6 <= usize::MAX,
                p % 2 == 0,
                p <= max + 2,
                out@.len() == p / 2,
                forall|k: int| 0 <= k < out@.len() ==> #[trigger] out@[k] == 2 * k,
            decreases max + 2 - p,
        {
            out.push(p);
            p += 2;
        }
        out
    }

    /// Moves the window to `position`, clamped and forced even.
    ///
    /// Even alignment is not cosmetic. A two-slot item occupies an even index
    /// and the filler after it an odd one, so a window starting on an odd index
    /// shows the tail of an item without its head.
    pub fn set_position(&mut self, position: usize) -> (r: bool)
        requires
            old(self).wf(),
        ensures
            final(self).wf(),
            final(self).pos() == (if position - position % 2 < old(self).max_pos() {
                position - position % 2
            } else {
                old(self).max_pos()
            }),
            r == (final(self).pos() != old(self).pos()),
            final(self).slots() == old(self).slots(),
            final(self).equipped_index() == old(self).equipped_index(),
            final(self).held() == old(self).held(),
    {
        let even = position - position % 2;
        let max = self.max_position();
        let target = if even < max {
            even
        } else {
            max
        };
        let changed = target != self.position;
        self.position = target;
        changed
    }

    pub fn reset(&mut self)
        requires
            old(self).wf(),
        ensures
            final(self).wf(),
            final(self).pos() == 0,
            final(self).slots() == old(self).slots(),
            final(self).equipped_index() == old(self).equipped_index(),
            final(self).held() == old(self).held(),
    {
        self.position = 0;
    }

    /// Store index that visible slot `slot` would show at `position`.
    fn store_index_at(&self, position: usize, slot: usize) -> (r: Option<usize>)
        requires
            self.wf(),
            position <= self.max_pos(),
        ensures
            match self.index_of(position as int, slot as int) {
                Some(i) => r == Some(i as usize) && 0 <= i < self.cap(),
                None => r is None,
            },
    {
        if slot >= BAG_SIZE {
            return None;
        }
        let row = slot / 2;
        let column = slot % 2;
        match self.pin {
            None => Some(position + slot),
            Some(pin) => {
                if row == pin.visible_row {
                    return Some(pin.store_row * 2 + column);
                }
                let order = if row < pin.visible_row {
                    row
                } else {
                    row - 1
                };
                let sequence_row = position / 2 + order;
                let store_row = if sequence_row < pin.store_row {
                    sequence_row
                } else {
                    sequence_row + 1
                };
                Some(store_row * 2 + column)
            },
        }
    }

    /// Visible slot that store index `index` would take at `position`.
    fn visible_slot_at(&self, position: usize, index: usize) -> (r: Option<usize>)
        requires
            self.wf(),
            position <= self.max_pos(),
        ensures
            match self.slot_of(position as int, index as int) {
                Some(s) => r == Some(s as usize) && 0 <= s < BAG_SIZE,
                None => r is None,
            },
    {
        match self.pin {
            None => {
                if index >= position && index - position < BAG_SIZE {
                    Some(index - position)
                } else {
                    None
                }
            },
            Some(pin) => {
                let row = index / 2;
                let column = index % 2;
                if row == pin.store_row {
                    return Some(pin.visible_row * 2 + column);
                }
                let sequence_row = if row < pin.store_row {
                    row
                } else {
                    row - 1
                };
                if sequence_row < position / 2 {
                    return None;
                }
                let order = sequence_row - position / 2;
                if order >= ROWS - 1 {
                    return None;
                }
                let visible_row = if order < pin.visible_row {
                    order
                } else {
                    order + 1
                };
                Some(visible_row * 2 + column)
            },
        }
    }

    /// Store index currently shown in visible slot `slot`.
    pub fn store_index(&self, slot: usize) -> (r: Option<usize>)
        requires
            self.wf(),
        ensures
            match self.index_of(self.pos(), slot as int) {
                Some(i) => r == Some(i as usize) && 0 <= i < self.cap(),
                None => r is None,
            },
    {
        self.store_index_at(self.position, slot)
    }

    /// Visible slot showing store index `index`, if it is in view.
    pub fn visible_slot(&self, index: usize) -> (r: Option<usize>)
        requires
            self.wf(),
        ensures
            match self.slot_of(self.pos(), index as int) {
                Some(s) => r == Some(s as usize) && 0 <= s < BAG_SIZE,
                None => r is None,
            },
    {
        self.visible_slot_at(self.position, index)
    }
}

impl Window {
    /// Copies the visible slots into the bag the game reads.
    ///
    /// The personal item is left alone: it is a slot of its own, outside the
    /// array, and has nothing to do with the window.
    ///
    /// The equipped index is rewritten, because it is a slot number and the
    /// slots have just changed underneath it. When the equipped item is out of
    /// view the game is told nothing is equipped, which is the only honest
    /// answer available in six slots.
    pub fn write_into(&self, bag: &mut Bag)
        requires
            self.wf(),
        ensures
            forall|k: int| 0 <= k < BAG_SIZE ==> #[trigger] final(bag).items@[k] == self.shown(k),
            final(bag).unknown00 == old(bag).unknown00,
            final(bag).personal_item == old(bag).personal_item,
            final(bag).equipped_index == (match self.equipped_index() {
                Some(i) => match self.slot_of(self.pos(), i as int) {
                    Some(s) => s,
                    None => NOTHING_EQUIPPED as int,
                },
                None => NOTHING_EQUIPPED as int,
            }),
            published(*self, *old(bag), *final(bag)),
    {
        let mut slot: usize = 0;
        while slot < BAG_SIZE
            invariant
                self.wf(),
                slot <= BAG_SIZE,
                forall|k: int| 0 <= k < slot ==> #[trigger] bag.items@[k] == self.shown(k),
                bag.unknown00 == old(bag).unknown00,
                bag.personal_item == old(bag).personal_item,
            decreases BAG_SIZE - slot,
        {
            let item = match self.store_index(slot) {
                Some(index) => match self.store.get(index) {
                    Some(item) => item,
                    None => Item::empty(),
                },
                None => Item::empty(),
            };
            bag.items[slot] = item;
            slot += 1;
        }
        bag.equipped_index = match self.equipped {
            Some(index) => match self.visible_slot(index) {
                Some(s) => s as i32,
                None => NOTHING_EQUIPPED,
            },
            None => NOTHING_EQUIPPED,
        };
    }

    /// Copies whatever the game left in the bag back into the store.
    ///
    /// The game saying nothing is equipped is believed only when what is
    /// recorded as equipped is in view: otherwise this is `write_into`'s own
    /// answer being read back, and believing it would unequip the item for
    /// good.
    pub fn read_from(&mut self, bag: &Bag)
        requires
            old(self).wf(),
        ensures
            final(self).wf(),
            final(self).items() == stored(
                old(self).items(),
                old(self).held(),
                old(self).pos(),
                bag.items@,
                BAG_SIZE as int,
            ),
            final(self).pos() == old(self).pos(),
            final(self).held() == old(self).held(),
            final(self).equipped_index() == (if 0 <= bag.equipped_index < BAG_SIZE {
                Some(old(self).index_of(old(self).pos(), bag.equipped_index as int)->0 as usize)
            } else {
                match old(self).equipped_index() {
                    Some(i) => if old(self).slot_of(old(self).pos(), i as int) is Some {
                        None
                    } else {
                        Some(i)
                    },
                    None => None,
                }
            }),
            read_back(*old(self), *bag, *final(self)),
    {
        let ghost start = self.items();
        let mut slot: usize = 0;
        while slot < BAG_SIZE
            invariant
                self.wf(),
                slot <= BAG_SIZE,
                self.pos() == old(self).pos(),
                self.held() == old(self).held(),
                self.equipped_index() == old(self).equipped_index(),
                self.cap() == old(self).cap(),
                start == old(self).items(),
                self.items() == stored(start, self.held(), self.pos(), bag.items@, slot as int),
            decreases BAG_SIZE - slot,
        {
            if let Some(index) = self.store_index(slot) {
                self.store.set(index, bag.items[slot]);
            }
            slot += 1;
        }
        let slot = bag.equipped_index;
        if 0 <= slot && slot < BAG_SIZE as i32 {
            self.equipped = self.store_index(slot as usize);
            return;
        }
        let equipped_is_visible = match self.equipped {
            Some(index) => self.visible_slot(index).is_some(),
            None => false,
        };
        if equipped_is_visible {
            self.equipped = None;
        }
    }

    /// Whether visible slot `slot` shows nothing at `position`.
    fn slot_is_empty_at(&self, position: usize, slot: usize) -> (r: bool)
        requires
            self.wf(),
            position <= self.max_pos(),
        ensures
            r == self.slot_empty_at(position as int, slot as int),
    {
        match self.store_index_at(position, slot) {
            Some(index) => match self.store.get(index) {
                Some(item) => item.is_empty(),
                None => true,
            },
            None => true,
        }
    }

    /// First visible slot that is empty, if any.
    ///
    /// This is what a caller can safely be told to write into: the game can
    /// only address the six slots it has.
    pub fn first_visible_empty(&self) -> (r: Option<usize>)
        requires
            self.wf(),
        ensures
            match r {
                Some(s) => s < BAG_SIZE && self.slot_empty_at(self.pos(), s as int) && forall|k: int|
                    0 <= k < s ==> !#[trigger] self.slot_empty_at(self.pos(), k),
                None => forall|k: int| 0 <= k < BAG_SIZE ==> !#[trigger] self.slot_empty_at(self.pos(), k),
            },
            match r {
                Some(s) => first_open(*self, self.pos(), 0) == Some(s as int),
                None => first_open(*self, self.pos(), 0) is None,
            },
    {
        let mut slot: usize = 0;
        while slot < BAG_SIZE
            invariant
                self.wf(),
                slot <= BAG_SIZE,
                forall|k: int| 0 <= k < slot ==> !#[trigger] self.slot_empty_at(self.pos(), k),
                first_open(*self, self.pos(), 0) == first_open(*self, self.pos(), slot as int),
            decreases BAG_SIZE - slot,
        {
            if self.slot_is_empty_at(self.position, slot) {
                return Some(slot);
            }
            slot += 1;
        }
        None
    }

    fn empty_in_view_at(&self, position: usize) -> (r: usize)
        requires
            self.wf(),
            position <= self.max_pos(),
        ensures
            r == empty_in_view(*self, position as int),
            r <= BAG_SIZE,
    {
        let mut n: usize = 0;
        let mut slot: usize = 0;
        while slot < BAG_SIZE
            invariant
                self.wf(),
                position <= self.max_pos(),
                slot <= BAG_SIZE,
                n == empty_in_slots(*self, position as int, slot as int),
                n <= slot,
            decreases BAG_SIZE - slot,
        {
            if self.slot_is_empty_at(position, slot) {
                n += 1;
            }
            slot += 1;
        }
        n
    }

    /// How many of the slots in view are empty.
    pub fn visible_empty_count(&self) -> (r: usize)
        requires
            self.wf(),
        ensures
            r == empty_in_view(*self, self.pos()),
    {
        self.empty_in_view_at(self.position)
    }

    /// The position showing the most empty slots at once, and how many.
    ///
    /// The current position wins a tie, so the window does not jump when it
    /// already has the room; otherwise the earliest such position.
    ///
    /// This is the most room the game can ever be promised. The store may hold
    /// more empty slots in total, but the game writes into the six it can see,
    /// and its own code trusts what `count_empty` said to fit in them.
    pub fn roomiest_position(&self) -> (r: (usize, usize))
        requires
            self.wf(),
        ensures
            r.1 == empty_in_view(*self, r.0 as int),
            r.0 % 2 == 0,
            r.0 <= self.max_pos(),
            forall|q: int| 0 <= q <= self.max_pos() && q % 2 == 0 ==> empty_in_view(*self, q) <= r.1,
            empty_in_view(*self, self.pos()) == r.1 ==> r.0 == self.pos(),
            empty_in_view(*self, self.pos()) < r.1 ==> forall|q: int|
                0 <= q < r.0 && q % 2 == 0 ==> empty_in_view(*self, q) < r.1,
            roomiest(*self, r.0 as int),
    {
        let mut best: (usize, usize) = (self.position, self.visible_empty_count());
        let max = self.max_position();
        let mut p: usize = 0;
        while p <= max
            invariant
                self.wf(),
                max == self.max_pos(),
                p % 2 == 0,
                p <= max + 2,
                best.1 == empty_in_view(*self, best.0 as int),
                best.0 % 2 == 0,
                best.0 <= max,
                empty_in_view(*self, self.pos()) <= best.1,
                forall|q: int| 0 <= q < p && q % 2 == 0 ==> empty_in_view(*self, q) <= best.1,
                empty_in_view(*self, self.pos()) == best.1 ==> best.0 == self.pos(),
                empty_in_view(*self, self.pos()) < best.1 ==> best.0 < p && forall|q: int|
                    0 <= q < best.0 && q % 2 == 0 ==> empty_in_view(*self, q) < best.1,
            decreases max + 2 - p,
        {
            let count = self.empty_in_view_at(p);
            if count > best.1 {
                best = (p, count);
            }
            p += 2;
        }
        best
    }
}

impl Window {
    /// Jumps so that `index` is visible, keeping the window even-aligned.
    ///
    /// With a held row, the window goes to the first position that shows
    /// `index`, if it is not already in view and any position does.
    pub fn reveal_index(&mut self, index: usize)
        requires
            old(self).wf(),
            index < usize::MAX,
        ensures
            final(self).wf(),
            final(self).slots() == old(self).slots(),
            final(self).equipped_index() == old(self).equipped_index(),
            final(self).held() == old(self).held(),
            old(self).held() is Some ==> final(self).pos() == (if old(self).slot_of(
                old(self).pos(),
                index as int,
            ) is Some {
                old(self).pos()
            } else {
                match first_showing(*old(self), index as int, 0) {
                    Some(p) => p,
                    None => old(self).pos(),
                }
            }),
            old(self).held() is None ==> final(self).pos() == revealed_plain(
                old(self).pos(),
                index as int,
                old(self).max_pos(),
            ),
            final(self).pos() == revealed(*old(self), index as int),
    {
        if self.pin.is_some() {
            if self.visible_slot(index).is_none() {
                let max = self.max_position();
                let mut p: usize = 0;
                while p <= max
                    invariant
                        self.wf(),
                        *self == *old(self),
                        self.held() is Some,
                        old(self).slot_of(old(self).pos(), index as int) is None,
                        max == self.max_pos(),
                        p % 2 == 0,
                        p <= max + 2,
                        first_showing(*self, index as int, 0) == first_showing(
                            *self,
                            index as int,
                            p as int,
                        ),
                    decreases max + 2 - p,
                {
                    if self.visible_slot_at(p, index).is_some() {
                        self.position = p;
                        return;
                    }
                    p += 2;
                }
            }
            return;
        }
        if index < self.position {
            self.position = index - index % 2;
            return;
        }
        if index - self.position >= BAG_SIZE {
            let first = index + 1 - BAG_SIZE;
            let up = if first % 2 == 0 {
                first
            } else {
                first + 1
            };
            let max = self.max_position();
            self.position = if up < max {
                up
            } else {
                max
            };
        }
    }

    /// Packs the store towards the front, keeping the equipped item equipped.
    ///
    /// The game's own `organize` does this to the six slots it can see after
    /// every change; nothing does it to the rest of the store, so a hole left
    /// on one page stays. Two holes on different pages are two free slots no
    /// window shows together, which refuses a two-slot item with room to
    /// spare.
    ///
    /// The equipped item is found again by identity afterwards. If the repair
    /// cannot fit everything, nothing is changed rather than lose an item.
    pub fn compact(&mut self)
        requires
            old(self).wf(),
        ensures
            final(self).wf(),
            final(self).held() is None,
            final(self).pos() == old(self).pos(),
            overflow(old(self).items()).len() > 0 ==> {
                &&& final(self).items() == old(self).items()
                &&& final(self).equipped_index() == old(self).equipped_index()
            },
            overflow(old(self).items()).len() == 0 ==> {
                &&& final(self).items() == repaired(old(self).items())
                &&& final(self).equipped_index() == (match old(self).equipped_index() {
                    Some(i) => if i < old(self).cap() {
                        match index_of_item(
                            repaired(old(self).items()),
                            old(self).items()[i as int],
                            0,
                        ) {
                            Some(j) => Some(j as usize),
                            None => None,
                        }
                    } else {
                        None
                    },
                    None => None,
                })
            },
    {
        self.pin = None;
        let before = self.store.clone();
        let equipped = match self.equipped {
            Some(index) => self.store.get(index),
            None => None,
        };
        let ghost old_items = self.items();
        if self.store.repair().len() != 0 {
            self.store = before;
            return;
        }
        proof {
            crate::slots::lemma_lay_length(old_items);
        }
        self.equipped = match equipped {
            Some(item) => first_index_of(self.store.as_slice(), item),
            None => None,
        };
        let max = self.max_position();
        self.position = if self.position < max {
            self.position
        } else {
            max
        };
    }

    /// Holds visible row `visible_row` on the store row it shows now, while
    /// the other rows keep scrolling over the rest of the store.
    ///
    /// For the inventory's two-item actions. Confirming the first item saves
    /// its visible slot in the menu, and the action later reads both slots
    /// from the six the game can see. Scrolling to reach a second item
    /// anywhere else in the store would slide a different item under the
    /// saved slot, unless that slot's row stays where it is.
    ///
    /// The first unpinned row keeps showing what it shows now, so nothing
    /// visibly jumps at the moment of pinning.
    pub fn pin_row(&mut self, visible_row: usize)
        requires
            old(self).wf(),
        ensures
            final(self).wf(),
            final(self).slots() == old(self).slots(),
            final(self).equipped_index() == old(self).equipped_index(),
            visible_row >= ROWS || old(self).held() is Some ==> *final(self) == *old(self),
            visible_row < ROWS && old(self).held() is None ==> {
                &&& final(self).held() == Some(
                    Pin { visible_row, store_row: (old(self).pos() / 2 + visible_row) as usize },
                )
                &&& final(self).pos() == old(self).pos()
            },
    {
        if visible_row >= ROWS || self.pin.is_some() {
            return;
        }
        let store_row = self.position / 2 + visible_row;
        let first_other: usize = if visible_row == 0 {
            1
        } else {
            0
        };
        let shown = self.position / 2 + first_other;
        let sequence_row = if shown < store_row {
            shown
        } else {
            shown - 1
        };
        self.pin = Some(Pin { visible_row, store_row });
        let max = self.max_position();
        self.position = if sequence_row * 2 < max {
            sequence_row * 2
        } else {
            max
        };
    }

    pub fn is_pinned(&self) -> (r: bool)
        ensures
            r == self.held() is Some,
    {
        self.pin.is_some()
    }

    /// Releases the held row.
    ///
    /// `keep` names a visible slot whose item should stay where it is on
    /// screen, if the plain window can show it there; otherwise the item is
    /// merely kept in view.
    pub fn unpin(&mut self, keep: Option<usize>)
        requires
            old(self).wf(),
        ensures
            final(self).wf(),
            final(self).held() is None,
            final(self).slots() == old(self).slots(),
            final(self).equipped_index() == old(self).equipped_index(),
            old(self).held() is None ==> final(self).pos() == old(self).pos(),
            old(self).held() is Some ==> final(self).pos() == (match keep {
                Some(slot) => match old(self).index_of(old(self).pos(), slot as int) {
                    Some(index) => if index >= slot && (index - slot) % 2 == 0 && index - slot
                        <= old(self).max_pos() {
                        index - slot
                    } else {
                        revealed_plain(old(self).pos(), index, old(self).max_pos())
                    },
                    None => old(self).pos(),
                },
                None => old(self).pos(),
            }),
    {
        if self.pin.is_none() {
            return;
        }
        let kept: Option<(usize, usize)> = match keep {
            Some(slot) => match self.store_index(slot) {
                Some(index) => Some((slot, index)),
                None => None,
            },
            None => None,
        };
        self.pin = None;
        match kept {
            Some((slot, index)) => {
                let max = self.max_position();
                if index >= slot && (index - slot) % 2 == 0 && index - slot <= max {
                    self.position = index - slot;
                } else {
                    self.reveal_index(index);
                }
            },
            None => {
                let max = self.max_position();
                self.position = if self.position < max {
                    self.position
                } else {
                    max
                };
            },
        }
    }

    /// Repairs the store, then moves the window back into range.
    pub fn repair(&mut self) -> (r: Vec<Item>)
        requires
            old(self).wf(),
        ensures
            final(self).wf(),
            final(self).items() == repaired(old(self).items()),
            r@ == overflow(old(self).items()),
            final(self).pos() == old(self).pos(),
            final(self).held() == old(self).held(),
            final(self).equipped_index() == old(self).equipped_index(),
    {
        let ghost old_items = self.items();
        let overflow = self.store.repair();
        proof {
            crate::slots::lemma_lay_length(old_items);
        }
        let max = self.max_position();
        self.position = if self.position < max {
            self.position
        } else {
            max
        };
        overflow
    }

    /// Brings the window back onto the equipped item when it has left it.
    ///
    /// Out in the world the game reads the equipped index off the bag and
    /// holsters what it cannot see, so the window may only rest away from the
    /// equipped item on the inventory screen. Returns whether it moved.
    pub fn keep_equipped_visible(&mut self) -> (r: bool)
        requires
            old(self).wf(),
        ensures
            final(self).wf(),
            final(self).slots() == old(self).slots(),
            final(self).equipped_index() == old(self).equipped_index(),
            final(self).held() == old(self).held(),
            r == (final(self).pos() != old(self).pos()),
            back_on_equipped(*old(self), *final(self)),
    {
        match self.equipped {
            Some(index) => {
                if self.visible_slot(index).is_none() && index < usize::MAX {
                    let before = self.position;
                    self.reveal_index(index);
                    self.position != before
                } else {
                    false
                }
            },
            None => false,
        }
    }
}

// --- Laws of the window ---

/// Every visible slot shows a store index inside the store, at every position
/// the window can rest at.
pub proof fn law_visible_slots_are_in_the_store(w: Window, position: int, slot: int)
    requires
        w.wf(),
        0 <= position <= w.max_pos(),
        0 <= slot < BAG_SIZE,
    ensures
        w.index_of(position, slot) is Some,
        0 <= w.index_of(position, slot)->0 < w.cap(),
{
}

/// The two translations agree: the store index a visible slot shows is shown
/// in exactly that slot, and a store index in view is what its slot shows.
pub proof fn law_slot_and_index_translate_both_ways(w: Window, position: int, slot: int, index: int)
    requires
        w.wf(),
        0 <= position <= w.max_pos(),
        position % 2 == 0,
    ensures
        0 <= slot < BAG_SIZE ==> w.slot_of(position, w.index_of(position, slot)->0) == Some(slot),
        w.slot_of(position, index) matches Some(s) ==> 0 <= s < BAG_SIZE && w.index_of(position, s)
            == Some(index),
{
}

/// Distinct visible slots show distinct store indices.
proof fn lemma_index_injective(w: Window, position: int, a: int, b: int)
    requires
        w.wf(),
        0 <= position <= w.max_pos(),
        position % 2 == 0,
        0 <= a < BAG_SIZE,
        0 <= b < BAG_SIZE,
        a != b,
    ensures
        w.index_of(position, a) != w.index_of(position, b),
{
    law_slot_and_index_translate_both_ways(w, position, a, 0);
    law_slot_and_index_translate_both_ways(w, position, b, 0);
}

proof fn lemma_stored_unchanged(w: Window, bag: Seq<Item>, n: int)
    requires
        w.wf(),
        0 <= n <= BAG_SIZE,
        bag.len() == BAG_SIZE,
        forall|k: int| 0 <= k < BAG_SIZE ==> #[trigger] bag[k] == w.shown(k),
    ensures
        stored(w.items(), w.held(), w.pos(), bag, n) == w.items(),
    decreases n,
{
    if n > 0 {
        lemma_stored_unchanged(w, bag, n - 1);
        law_visible_slots_are_in_the_store(w, w.pos(), n - 1);
        let i = w.index_of(w.pos(), n - 1)->0;
        assert(bag[n - 1] == w.items()[i]);
        assert(w.items().update(i, bag[n - 1]) =~= w.items());
    }
}

proof fn lemma_stored_reads_back(w: Window, bag: Seq<Item>, n: int)
    requires
        w.wf(),
        0 <= n <= BAG_SIZE,
        bag.len() == BAG_SIZE,
    ensures
        stored(w.items(), w.held(), w.pos(), bag, n).len() == w.cap(),
        forall|k: int|
            0 <= k < n ==> #[trigger] stored(w.items(), w.held(), w.pos(), bag, n)[w.index_of(
                w.pos(),
                k,
            )->0] == bag[k],
        forall|i: int|
            0 <= i < w.cap() && (forall|k: int| 0 <= k < n ==> w.index_of(w.pos(), k) != Some(i))
                ==> #[trigger] stored(w.items(), w.held(), w.pos(), bag, n)[i] == w.items()[i],
    decreases n,
{
    if n > 0 {
        lemma_stored_reads_back(w, bag, n - 1);
        law_visible_slots_are_in_the_store(w, w.pos(), n - 1);
        let before = stored(w.items(), w.held(), w.pos(), bag, n - 1);
        let now = stored(w.items(), w.held(), w.pos(), bag, n);
        let i = w.index_of(w.pos(), n - 1)->0;
        assert(now == before.update(i, bag[n - 1]));
        assert forall|k: int| 0 <= k < n implies #[trigger] now[w.index_of(w.pos(), k)->0] == bag[k] by {
            if k < n - 1 {
                lemma_index_injective(w, w.pos(), k, n - 1);
                law_visible_slots_are_in_the_store(w, w.pos(), k);
            }
        }
    }
}

/// What the game wrote into the six slots is what the window then shows: after
/// `read_from`, every visible slot shows the bag's item for that slot.
pub proof fn law_read_then_shown(w: Window, bag: Seq<Item>, after: Window)
    requires
        w.wf(),
        bag.len() == BAG_SIZE,
        after.slots().contents() == stored(w.items(), w.held(), w.pos(), bag, BAG_SIZE as int),
        after.held() == w.held(),
        after.pos() == w.pos(),
    ensures
        forall|k: int| 0 <= k < BAG_SIZE ==> #[trigger] after.shown(k) == bag[k],
{
    lemma_stored_reads_back(w, bag, BAG_SIZE as int);
    assert forall|k: int| 0 <= k < BAG_SIZE implies #[trigger] after.shown(k) == bag[k] by {
        law_visible_slots_are_in_the_store(w, w.pos(), k);
    }
}

/// Reading back exactly what was written changes nothing in the store: a
/// `write_into` followed by `read_from` of the same, untouched bag leaves every
/// slot as it was.
pub proof fn law_write_then_read_is_identity(w: Window, bag: Seq<Item>)
    requires
        w.wf(),
        bag.len() == BAG_SIZE,
        forall|k: int| 0 <= k < BAG_SIZE ==> #[trigger] bag[k] == w.shown(k),
    ensures
        stored(w.items(), w.held(), w.pos(), bag, BAG_SIZE as int) == w.items(),
{
    lemma_stored_unchanged(w, bag, BAG_SIZE as int);
}

/// Pinning a row moves nothing on screen at that moment: every visible slot
/// shows the same store index before and after.
pub proof fn law_pinning_does_not_jump(w: Window, visible_row: int, slot: int)
    requires
        w.wf(),
        w.held() is None,
        0 <= visible_row < ROWS,
        0 <= slot < BAG_SIZE,
    ensures
        index_at(Some(Pin { visible_row: visible_row as usize, store_row: (w.pos() / 2 + visible_row) as usize }), w.pos(), slot)
            == index_at(None, w.pos(), slot),
{
}

/// At most one position is the roomiest.
pub proof fn law_roomiest_is_unique(w: Window, p: int, q: int)
    requires
        w.wf(),
        roomiest(w, p),
        roomiest(w, q),
    ensures
        p == q,
{
    assert(empty_in_view(w, p) == empty_in_view(w, q));
    if empty_in_view(w, w.pos()) < empty_in_view(w, p) {
        if q < p {
            assert(empty_in_view(w, q) < empty_in_view(w, p));
        }
        if p < q {
            assert(empty_in_view(w, p) < empty_in_view(w, q));
        }
    }
}

/// Without a held row, revealing a store index always brings it into view.
pub proof fn law_reveal_shows_the_index(w: Window, index: int)
    requires
        w.wf(),
        w.held() is None,
        0 <= index < w.cap(),
    ensures
        slot_at(None, revealed_plain(w.pos(), index, w.max_pos()), index) is Some,
        revealed_plain(w.pos(), index, w.max_pos()) % 2 == 0,
        0 <= revealed_plain(w.pos(), index, w.max_pos()) <= w.max_pos(),
{
}

} // verus!
