//! Storage the player can put things into and take things back out of.
//!
//! The box appears in the partner's half of the inventory screen, in place of
//! the partner's own bag. The panel is a generic surface fed by an accessor
//! that is replaced anyway, so showing something else there costs one branch.
//! Passing an item between the two halves is something the game already does:
//! with the box on the right, handing an item to the partner is depositing it.
//!
//! The box may only be open inside the menu: the borrowed accessor has callers
//! outside the inventory screen, and while the box is showing those would be
//! asking the box.

use vstd::prelude::*;

use crate::bag_hooks::{promised_room, seek_slot};
use crate::input::SCROLL_STEP;
use crate::inventory::{Bag, Item};
use crate::registry::{adjusted, answered, synced, view_answered, Adjust, Query, MAX_SLOTS};
use crate::slots::{empties, rounded_capacity};
use crate::window::{doubled, fresh, holding, published, read_back, Window};

verus! {

/// Rows to scroll back by to reach the first row from anywhere.
pub const REWIND_ROWS: i32 = -0x4000_0000;

/// The box's store, and the address of the bag the game is shown.
pub struct Storage {
    pub view: usize,
    pub window: Window,
}

/// Whether `after` and `r` are `before` having taken `view` in and scrolled
/// by `rows`, with the bag to publish when it moved.
pub open spec fn scrolled(before: Window, view: Bag, rows: i32, after: Window, r: Option<Bag>) -> bool {
    exists|out: Bag|
        #![trigger published(after, view, out)]
        synced(before, view, Adjust::Scroll(rows), after, out) && r == if after.pos() != before.pos() {
            Some(out)
        } else {
            None
        }
}

pub struct ItemBox {
    open: bool,
    storage: Option<Storage>,
}

impl ItemBox {
    pub closed spec fn showing(&self) -> bool {
        self.open
    }

    pub closed spec fn stored(&self) -> Option<Storage> {
        self.storage
    }

    /// A valid window no larger than a store may be.
    pub open spec fn wf(&self) -> bool {
        self.stored() matches Some(s) ==> s.window.wf() && s.window.cap() <= MAX_SLOTS
    }

    /// Switched off: no storage, not showing.
    pub fn new() -> (r: ItemBox)
        ensures
            r.wf(),
            !r.showing(),
            r.stored() is None,
    {
        ItemBox { open: false, storage: None }
    }

    /// Whether the box is showing in place of the partner's bag.
    pub fn is_open(&self) -> (r: bool)
        ensures
            r == self.showing(),
    {
        self.open
    }

    /// Whether the box was set up.
    pub fn is_set_up(&self) -> (r: bool)
        ensures
            r == self.stored() is Some,
    {
        self.storage.is_some()
    }

    /// Shows the box, or puts the partner's bag back, and returns the new
    /// state. Refuses to open a box that was never set up, which is what a
    /// configuration with the box switched off leaves.
    pub fn toggle(&mut self) -> (r: bool)
        requires
            old(self).wf(),
        ensures
            final(self).wf(),
            final(self).stored() == old(self).stored(),
            !old(self).showing() && old(self).stored() is None ==> !r && !final(self).showing(),
            old(self).showing() || old(self).stored() is Some ==> r == !old(self).showing(),
            final(self).showing() == r,
    {
        if !self.open && self.storage.is_none() {
            return false;
        }
        self.open = !self.open;
        self.open
    }

    /// Hides the box. Called whenever the inventory is not open: the accessor
    /// the box borrows answers questions outside the menu too.
    pub fn close(&mut self)
        requires
            old(self).wf(),
        ensures
            final(self).wf(),
            !final(self).showing(),
            final(self).stored() == old(self).stored(),
    {
        self.open = false;
    }

    /// Shows the box from the toggle key. Opening only: an open box stays
    /// until the menu closes, so a stray key press cannot make it vanish
    /// mid-use. Gives whether the box is showing; a box that was never set up
    /// never shows.
    pub fn open_from_key(&mut self) -> (r: bool)
        requires
            old(self).wf(),
        ensures
            final(self).wf(),
            final(self).stored() == old(self).stored(),
            r == old(self).stored() is Some,
            final(self).showing() == (old(self).showing() || r),
    {
        if self.storage.is_none() {
            return false;
        }
        self.open = true;
        true
    }

    /// Closes the box outright, as when the character it stood beside is
    /// played again or the hooks are coming out.
    pub fn abandon(&mut self)
        requires
            old(self).wf(),
        ensures
            final(self).wf(),
            !final(self).showing(),
            final(self).stored() == old(self).stored(),
    {
        self.open = false;
    }

    /// Closes the box because the inventory screen closed: it belongs to one
    /// visit to the screen.
    pub fn close_with_menu(&mut self)
        requires
            old(self).wf(),
        ensures
            final(self).wf(),
            !final(self).showing(),
            final(self).stored() == old(self).stored(),
    {
        self.open = false;
    }

    /// Sets the box up with room for `capacity` items, shown through the bag
    /// at `view`.
    pub fn enable(&mut self, capacity: usize, view: usize)
        requires
            old(self).wf(),
            capacity <= MAX_SLOTS,
        ensures
            final(self).wf(),
            final(self).showing() == old(self).showing(),
            final(self).stored() matches Some(s) && s.view == view && fresh(s.window, capacity as int),
    {
        proof {
            assert(rounded_capacity(capacity as int) <= MAX_SLOTS);
        }
        self.storage = Some(Storage { view, window: Window::new(capacity) });
    }

    /// The bag to hand the game while the box is showing, and where it
    /// lives, after taking in what the game left in it (`current`). `None`
    /// when there is no box.
    pub fn view(&mut self, current: Bag) -> (r: Option<(usize, Bag)>)
        requires
            old(self).wf(),
        ensures
            final(self).wf(),
            final(self).showing() == old(self).showing(),
            match old(self).stored() {
                None => r is None && final(self).stored() is None,
                Some(s) => final(self).stored() matches Some(t) && r matches Some((view, out))
                    && view == s.view && t.view == s.view && synced(
                    s.window,
                    current,
                    Adjust::Nothing,
                    t.window,
                    out,
                ),
            },
    {
        match self.storage.take() {
            None => None,
            Some(mut storage) => {
                let mut bag = current;
                let ghost before = storage.window;
                storage.window.read_from(&bag);
                let ghost taken = storage.window;
                storage.window.write_into(&mut bag);
                let view = storage.view;
                self.storage = Some(storage);
                assert(read_back(before, current, taken));
                Some((view, bag))
            },
        }
    }

    /// Moves the box's window by whole rows. Gives the bag to publish when it
    /// moved, and `None` when it did not or there is no box.
    pub fn scroll(&mut self, rows: i32, current: Bag) -> (r: Option<Bag>)
        requires
            old(self).wf(),
        ensures
            final(self).wf(),
            final(self).showing() == old(self).showing(),
            match old(self).stored() {
                None => r is None && final(self).stored() is None,
                Some(s) => final(self).stored() matches Some(t) && t.view == s.view && scrolled(
                    s.window,
                    current,
                    rows,
                    t.window,
                    r,
                ),
            },
    {
        match self.storage.take() {
            None => None,
            Some(mut storage) => {
                let mut bag = current;
                let ghost before = storage.window;
                storage.window.read_from(&bag);
                let ghost taken = storage.window;
                let moved = storage.window.scroll_rows(rows);
                storage.window.write_into(&mut bag);
                let r = if moved {
                    Some(bag)
                } else {
                    None
                };
                proof {
                    assert(read_back(before, current, taken));
                    assert(published(storage.window, current, bag));
                    assert(synced(before, current, Adjust::Scroll(rows), storage.window, bag));
                    assert(scrolled(before, current, rows, storage.window, r));
                }
                self.storage = Some(storage);
                r
            },
        }
    }

    /// Shows the box's next rows, starting over from the first row once it
    /// cannot go further. Gives the bag to publish when the window moved, and
    /// whether it wrapped.
    pub fn advance(&mut self, current: Bag) -> (r: (Option<Bag>, bool))
        requires
            old(self).wf(),
        ensures
            final(self).wf(),
            final(self).showing() == old(self).showing(),
            match old(self).stored() {
                None => r == (None::<Bag>, true) && final(self).stored() is None,
                Some(s) => final(self).stored() matches Some(t) && t.view == s.view && if !r.1 {
                    r.0 is Some && scrolled(s.window, current, SCROLL_STEP, t.window, r.0)
                } else {
                    exists|mid: Window|
                        #[trigger] scrolled(s.window, current, SCROLL_STEP, mid, None) && scrolled(
                            mid,
                            current,
                            REWIND_ROWS,
                            t.window,
                            r.0,
                        )
                },
            },
    {
        let ghost before = self.stored();
        let moved = self.scroll(SCROLL_STEP, current);
        if moved.is_some() {
            return (moved, false);
        }
        let ghost mid = self.stored();
        let back = self.scroll(REWIND_ROWS, current);
        proof {
            if let Some(s) = before {
                assert(scrolled(s.window, current, SCROLL_STEP, mid->0.window, None));
            }
        }
        (back, true)
    }

    /// Where the window sits, the box's size and how much of it is free.
    pub fn state(&self) -> (r: Option<(usize, usize, usize)>)
        requires
            self.wf(),
        ensures
            match self.stored() {
                None => r is None,
                Some(s) => r == Some(
                    (s.window.pos() as usize, s.window.cap() as usize, empties(s.window.items()) as usize),
                ),
            },
    {
        match &self.storage {
            None => None,
            Some(storage) => Some(
                (
                    storage.window.position(),
                    storage.window.store().capacity(),
                    storage.window.store().count_empty(),
                ),
            ),
        }
    }

    /// What the box holds, slot by slot; nothing when there is no box.
    pub fn contents(&self) -> (r: Vec<Item>)
        requires
            self.wf(),
        ensures
            r@ == match self.stored() {
                None => Seq::<Item>::empty(),
                Some(s) => s.window.items(),
            },
    {
        match &self.storage {
            None => Vec::new(),
            Some(storage) => {
                let slice = storage.window.store().as_slice();
                let mut out: Vec<Item> = Vec::new();
                let mut k: usize = 0;
                while k < slice.len()
                    invariant
                        k <= slice@.len(),
                        out@ == slice@.take(k as int),
                    decreases slice@.len() - k,
                {
                    out.push(slice[k]);
                    k += 1;
                    assert(out@ =~= slice@.take(k as int));
                }
                assert(slice@.take(slice@.len() as int) =~= slice@);
                out
            },
        }
    }

    /// Replaces what the box holds with `items`, from the first slot, keeping
    /// its size unless the items need more. A box that was never set up stays
    /// that way.
    pub fn set_contents(&mut self, items: Vec<Item>)
        requires
            old(self).wf(),
            items@.len() <= MAX_SLOTS,
        ensures
            final(self).wf(),
            final(self).showing() == old(self).showing(),
            match old(self).stored() {
                None => final(self).stored() is None,
                Some(s) => final(self).stored() matches Some(t) && t.view == s.view && holding(
                    t.window,
                    s.window.cap(),
                    items@,
                    0,
                ),
            },
    {
        match self.storage.take() {
            None => {},
            Some(mut storage) => {
                let capacity = storage.window.store().capacity();
                storage.window = Window::with_items(capacity, items.as_slice(), 0);
                proof {
                    assert(rounded_capacity(
                        if capacity < items@.len() {
                            items@.len() as int
                        } else {
                            capacity as int
                        },
                    ) <= MAX_SLOTS);
                }
                self.storage = Some(storage);
            },
        }
    }

    /// Answers `query` against the box, when `view` is the box's view:
    /// takes `current` in, answers, and gives the answer with the bag to
    /// publish. `None` when the address is not the box's.
    pub fn with_window(&mut self, view: usize, current: Bag, query: Query) -> (r: Option<(i32, Bag)>)
        requires
            old(self).wf(),
        ensures
            final(self).wf(),
            final(self).showing() == old(self).showing(),
            match old(self).stored() {
                Some(s) if s.view == view => final(self).stored() matches Some(t) && t.view == s.view
                    && r is Some && view_answered(s.window, t.window, current, query, (r->0).0 as int, (r->0).1),
                _ => r is None && final(self).stored() == old(self).stored(),
            },
    {
        match self.storage.take() {
            None => None,
            Some(mut storage) => {
                if storage.view != view {
                    self.storage = Some(storage);
                    return None;
                }
                let mut bag = current;
                let ghost before = storage.window;
                storage.window.read_from(&bag);
                let ghost taken = storage.window;
                let answer: i32 = match query {
                    Query::CountEmpty => {
                        let room = promised_room(&storage.window);
                        room as i32
                    },
                    Query::FirstEmpty { two_slot } => seek_slot(&mut storage.window, two_slot),
                };
                storage.window.write_into(&mut bag);
                proof {
                    assert(read_back(before, current, taken));
                    assert(answered(query, taken, storage.window, answer as int));
                    assert(view_answered(before, storage.window, current, query, answer as int, bag));
                }
                self.storage = Some(storage);
                Some((answer, bag))
            },
        }
    }
}

/// Wrapping brings the box back to its first row from any position the
/// rewind reaches back over.
pub proof fn law_box_wraps_to_the_first_row(before: Window, view: Bag, after: Window, r: Option<Bag>)
    requires
        before.wf(),
        before.pos() <= -doubled(REWIND_ROWS),
        scrolled(before, view, REWIND_ROWS, after, r),
    ensures
        after.pos() == 0,
{
    let out = choose|out: Bag| #![trigger published(after, view, out)]
        synced(before, view, Adjust::Scroll(REWIND_ROWS), after, out) && r == if after.pos() != before.pos() {
            Some(out)
        } else {
            None
        };
    let taken = choose|taken: Window| #![trigger read_back(before, view, taken)]
        read_back(before, view, taken) && adjusted(Adjust::Scroll(REWIND_ROWS), taken, after) && published(
            after,
            view,
            out,
        );
}

} // verus!
