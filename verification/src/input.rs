//! Turning the player's own navigation into a scroll.
//!
//! The panel shows six slots and the store holds more. With the selection on
//! the bottom row, pressing down brings the next rows into view instead of
//! doing nothing; at the end of the store it wraps to the top. Only downwards:
//! pressing up on the top row already moves to the tabs above the panel.
//!
//! The host polls the keyboard, the controller and the menu object, and runs
//! what these decisions ask for: each poll hands a [`Poller`] what was read,
//! one step at a time, and gets back what to do.

use vstd::prelude::*;

use crate::inventory::BAG_SIZE;

verus! {

pub const VK_DOWN: i32 = 0x28;
pub const VK_S: i32 = 0x53;

/// Shows the item box in place of the partner's bag.
pub const VK_HOME: i32 = 0x24;
pub const VK_PAGE_UP: i32 = 0x21;
pub const VK_PAGE_DOWN: i32 = 0x22;
pub const VK_F7: i32 = 0x76;
pub const VK_F8: i32 = 0x77;
pub const VK_F9: i32 = 0x78;
pub const VK_F10: i32 = 0x79;
pub const VK_F11: i32 = 0x7A;
pub const VK_F12: i32 = 0x7B;

/// The keys that give commands, in the order they are polled.
pub open spec fn command_keys() -> Seq<i32> {
    seq![VK_HOME, VK_PAGE_UP, VK_PAGE_DOWN, VK_F7, VK_F8, VK_F9, VK_F10, VK_F11, VK_F12]
}

/// The keys that give commands, in the order they are polled.
pub fn command_key(index: usize) -> (r: i32)
    requires
        index < 9,
    ensures
        r == command_keys()[index as int],
{
    match index {
        0 => VK_HOME,
        1 => VK_PAGE_UP,
        2 => VK_PAGE_DOWN,
        3 => VK_F7,
        4 => VK_F8,
        5 => VK_F9,
        6 => VK_F10,
        7 => VK_F11,
        _ => VK_F12,
    }
}

/// XInput's d-pad down.
pub const BUTTON_DPAD_DOWN: u16 = 0x0002;

/// Thumbstick clicks: the left shows the box, the right scrolls.
pub const BUTTON_LEFT_THUMB: u16 = 0x0040;
pub const BUTTON_RIGHT_THUMB: u16 = 0x0080;

/// How far the stick must be pushed to count as a direction. Well past the
/// resting wobble, so a controller sitting on a desk scrolls nothing.
pub const STICK_THRESHOLD: i16 = 16_000;

/// Milliseconds between polls.
pub const POLL_INTERVAL_MS: u64 = 40;

/// One row of two slots per press.
pub const SCROLL_STEP: i32 = 1;

/// A row back up.
pub const SCROLL_BACK: i32 = -1;

/// Slots across the panel; a vertical move is a step of this.
pub const COLUMNS: i32 = 2;

/// What the inventory menu is doing, as far as scrolling cares.
#[derive(Clone, Copy, PartialEq, Eq, Debug, Structural)]
pub enum Phase {
    /// The selection moves freely over the played half.
    Browsing,
    /// The selection is in the partner's half.
    PartnerHalf,
    /// The second item of a Combine is being chosen.
    SecondItem,
    /// Anything else: the game holds a slot it took earlier.
    Other,
}

/// What a scroll would move.
#[derive(Clone, Copy, PartialEq, Eq, Debug, Structural)]
pub enum Target {
    /// The characters' bags, together.
    Bags,
    /// The item box, standing in for the partner's bag.
    Box,
    /// The partner's own bag alone, at this offset: the target of an
    /// exchange, while the played half holds the item being given.
    Partner(usize),
}

pub open spec fn scroll_target_spec(
    phase: Option<Phase>,
    box_open: bool,
    partner_offset: Option<usize>,
    row_held: bool,
) -> Option<Target> {
    match phase {
        Some(Phase::PartnerHalf) => if box_open {
            Some(Target::Box)
        } else {
            match partner_offset {
                Some(o) => Some(Target::Partner(o)),
                None => None,
            }
        },
        Some(Phase::Browsing) => Some(Target::Bags),
        Some(Phase::SecondItem) => if row_held {
            Some(Target::Bags)
        } else {
            None
        },
        _ => None,
    }
}

/// Where a scroll goes at this moment, if anywhere.
///
/// Only browsing the played half, and choosing the partner-side slot of an
/// exchange, move a live cursor over a window that may slide. Everywhere
/// else the game holds a slot it took earlier, and sliding the window under
/// it would hand Use, Combine and Examine a different item than the one on
/// screen. The second item of a Combine may scroll once the first item's row
/// is held still.
pub fn scroll_target(
    phase: Option<Phase>,
    box_open: bool,
    partner_offset: Option<usize>,
    row_held: bool,
) -> (r: Option<Target>)
    ensures
        r == scroll_target_spec(phase, box_open, partner_offset, row_held),
{
    match phase {
        Some(Phase::PartnerHalf) => if box_open {
            Some(Target::Box)
        } else {
            match partner_offset {
                Some(o) => Some(Target::Partner(o)),
                None => None,
            }
        },
        Some(Phase::Browsing) => Some(Target::Bags),
        Some(Phase::SecondItem) => if row_held {
            Some(Target::Bags)
        } else {
            None
        },
        _ => None,
    }
}

/// The cursors the menu keeps.
#[derive(Clone, Copy, PartialEq, Eq, Debug, Structural)]
pub struct Cursors {
    /// The played half's selection.
    pub first: Option<i32>,
    /// The selection of the second item being chosen.
    pub second: Option<i32>,
    /// The partner half's own selection.
    pub partner: Option<i32>,
}

pub open spec fn played_cursor_spec(phase: Option<Phase>, cursors: Cursors) -> Option<i32> {
    if phase == Some(Phase::SecondItem) {
        cursors.second
    } else {
        cursors.first
    }
}

/// The cursor that moves over the played half: the second one while a
/// second item is being chosen, the first otherwise.
pub fn played_cursor(phase: Option<Phase>, cursors: Cursors) -> (r: Option<i32>)
    ensures
        r == played_cursor_spec(phase, cursors),
{
    if phase == Some(Phase::SecondItem) {
        cursors.second
    } else {
        cursors.first
    }
}

pub open spec fn moving_cursor_spec(target: Target, phase: Option<Phase>, cursors: Cursors) -> Option<i32> {
    match target {
        Target::Bags => played_cursor_spec(phase, cursors),
        _ => cursors.partner,
    }
}

/// The cursor that moves over what `target` names. In the partner's half the
/// game keeps a separate one, and the played half's freezes at its last
/// value there.
pub fn moving_cursor(target: Target, phase: Option<Phase>, cursors: Cursors) -> (r: Option<i32>)
    ensures
        r == moving_cursor_spec(target, phase, cursors),
{
    match target {
        Target::Bags => played_cursor(phase, cursors),
        _ => cursors.partner,
    }
}

pub open spec fn active_spec(target: Option<Target>, phase: Option<Phase>, cursors: Cursors) -> Option<(Target, i32)> {
    match target {
        None => None,
        Some(t) => match moving_cursor_spec(t, phase, cursors) {
            Some(c) => Some((t, c)),
            None => None,
        },
    }
}

/// The selection the player is moving right now, and where it is.
pub fn active_selection(target: Option<Target>, phase: Option<Phase>, cursors: Cursors) -> (r: Option<(Target, i32)>)
    ensures
        r == active_spec(target, phase, cursors),
{
    match target {
        None => None,
        Some(t) => match moving_cursor(t, phase, cursors) {
            Some(c) => Some((t, c)),
            None => None,
        },
    }
}

/// Whether `cursor` is on the bottom row of the six-slot panel.
pub fn on_bottom_row(cursor: i32) -> (r: bool)
    ensures
        r == (cursor >= BAG_SIZE - COLUMNS),
{
    cursor >= BAG_SIZE as i32 - COLUMNS
}

/// Whether "down" is asked for: a key, the d-pad, or the stick pushed well
/// down.
pub fn holding_down(key_down: bool, buttons: u16, stick_y: i16) -> (r: bool)
    ensures
        r == (key_down || buttons & BUTTON_DPAD_DOWN != 0 || stick_y < -STICK_THRESHOLD),
{
    key_down || buttons & BUTTON_DPAD_DOWN != 0 || stick_y < -STICK_THRESHOLD
}

/// Whether the controller reports anything at all: a button, or the stick
/// pushed past the threshold either way.
pub fn pad_reporting(buttons: u16, stick_y: i16) -> (r: bool)
    ensures
        r == (buttons != 0 || stick_y > STICK_THRESHOLD || stick_y < -STICK_THRESHOLD),
{
    buttons != 0 || stick_y > STICK_THRESHOLD || stick_y < -STICK_THRESHOLD
}

/// What a command key asks for.
#[derive(Clone, Copy, PartialEq, Eq, Debug, Structural)]
pub enum Command {
    ToggleBox,
    Scroll(i32),
    SelectionReport,
    RemoveHooks,
    Scan,
    Narrow,
    Inspect,
    LogRegions,
}

pub open spec fn command_spec(key: i32, debug_keys: bool) -> Option<Command> {
    if key == VK_HOME {
        Some(Command::ToggleBox)
    } else if key == VK_PAGE_UP {
        Some(Command::Scroll(SCROLL_BACK))
    } else if key == VK_PAGE_DOWN {
        Some(Command::Scroll(SCROLL_STEP))
    } else if !debug_keys {
        None
    } else if key == VK_F7 {
        Some(Command::SelectionReport)
    } else if key == VK_F8 {
        Some(Command::RemoveHooks)
    } else if key == VK_F9 {
        Some(Command::Scan)
    } else if key == VK_F10 {
        Some(Command::Narrow)
    } else if key == VK_F11 {
        Some(Command::Inspect)
    } else if key == VK_F12 {
        Some(Command::LogRegions)
    } else {
        None
    }
}

/// What pressing `key` asks for. Everything past the scrolling keys is
/// diagnostic and stays behind the debug switch.
pub fn command_for(key: i32, debug_keys: bool) -> (r: Option<Command>)
    ensures
        r == command_spec(key, debug_keys),
{
    if key == VK_HOME {
        Some(Command::ToggleBox)
    } else if key == VK_PAGE_UP {
        Some(Command::Scroll(SCROLL_BACK))
    } else if key == VK_PAGE_DOWN {
        Some(Command::Scroll(SCROLL_STEP))
    } else if !debug_keys {
        None
    } else if key == VK_F7 {
        Some(Command::SelectionReport)
    } else if key == VK_F8 {
        Some(Command::RemoveHooks)
    } else if key == VK_F9 {
        Some(Command::Scan)
    } else if key == VK_F10 {
        Some(Command::Narrow)
    } else if key == VK_F11 {
        Some(Command::Inspect)
    } else if key == VK_F12 {
        Some(Command::LogRegions)
    } else {
        None
    }
}

/// What to do with a row held for a second item.
#[derive(Clone, Copy, PartialEq, Eq, Debug, Structural)]
pub enum Hold {
    /// Hold the first item's row; report what was held with
    /// [`Poller::held`].
    Start,
    /// Release the row held in this bag.
    Release(usize),
    Keep,
}

/// What the poll loop remembers between polls.
#[derive(Clone, Copy, Debug)]
pub struct Poller {
    pub command_was_down: [bool; 9],
    pub down_was_down: bool,
    pub cycle_was_down: bool,
    pub box_was_down: bool,
    pub pad_seen: bool,
    pub menu_was_open: bool,
    /// The bag offset whose row is being held, while one is.
    pub held_row: Option<usize>,
    pub last_active: Option<(Target, i32)>,
}

impl Poller {
    /// Nothing pressed, nothing open, nothing held.
    pub open spec fn fresh() -> Poller {
        Poller {
            command_was_down: [false, false, false, false, false, false, false, false, false],
            down_was_down: false,
            cycle_was_down: false,
            box_was_down: false,
            pad_seen: false,
            menu_was_open: false,
            held_row: None,
            last_active: None,
        }
    }

    pub fn new() -> (r: Poller)
        ensures
            r == Poller::fresh(),
    {
        Poller {
            command_was_down: [false, false, false, false, false, false, false, false, false],
            down_was_down: false,
            cycle_was_down: false,
            box_was_down: false,
            pad_seen: false,
            menu_was_open: false,
            held_row: None,
            last_active: None,
        }
    }

    /// The commands whose keys went down since the last poll, in key order;
    /// `down[i]` is whether key `i` of `command_keys` is down now.
    pub fn commands(&mut self, down: [bool; 9], debug_keys: bool) -> (r: Vec<Command>)
        ensures
            final(self).command_was_down == down,
            final(self).down_was_down == old(self).down_was_down,
            final(self).cycle_was_down == old(self).cycle_was_down,
            final(self).box_was_down == old(self).box_was_down,
            final(self).pad_seen == old(self).pad_seen,
            final(self).menu_was_open == old(self).menu_was_open,
            final(self).held_row == old(self).held_row,
            final(self).last_active == old(self).last_active,
            r@ == pressed_commands(old(self).command_was_down@, down@, debug_keys, 9),
    {
        let mut out: Vec<Command> = Vec::new();
        let ghost was = self.command_was_down@;
        let mut i: usize = 0;
        while i < 9
            invariant
                i <= 9,
                was == old(self).command_was_down@,
                self.command_was_down@.len() == 9,
                forall|j: int| 0 <= j < i ==> self.command_was_down@[j] == down@[j],
                forall|j: int| i <= j < 9 ==> self.command_was_down@[j] == was[j],
                self.down_was_down == old(self).down_was_down,
                self.cycle_was_down == old(self).cycle_was_down,
                self.box_was_down == old(self).box_was_down,
                self.pad_seen == old(self).pad_seen,
                self.menu_was_open == old(self).menu_was_open,
                self.held_row == old(self).held_row,
                self.last_active == old(self).last_active,
                out@ == pressed_commands(was, down@, debug_keys, i as int),
            decreases 9 - i,
        {
            let now = down[i];
            if now && !self.command_was_down[i] {
                if let Some(c) = command_for(command_key(i), debug_keys) {
                    out.push(c);
                }
            }
            self.command_was_down[i] = now;
            i += 1;
        }
        assert(self.command_was_down@ =~= down@);
        out
    }

    /// Whether the menu closed since the last poll. The box belongs to one
    /// visit to the inventory screen, and the game is about to read the
    /// equipped index off the bags: a closing menu ends the one and puts the
    /// equipped weapon back in view for the other.
    pub fn menu(&mut self, open: bool) -> (closed: bool)
        ensures
            closed == (old(self).menu_was_open && !open),
            *final(self) == (Poller { menu_was_open: open, ..*old(self) }),
    {
        let closed = self.menu_was_open && !open;
        self.menu_was_open = open;
        closed
    }

    /// While a second item is being chosen, the first one's row is held
    /// still, so the slot the game saved keeps naming it however far the
    /// rest of the store scrolls. Released the moment the choice is over.
    pub fn second_item(&mut self, choosing: bool) -> (r: Hold)
        ensures
            r == if choosing && old(self).held_row is None {
                Hold::Start
            } else if !choosing && old(self).held_row is Some {
                Hold::Release(old(self).held_row->0)
            } else {
                Hold::Keep
            },
            *final(self) == if r is Release {
                Poller { held_row: None, ..*old(self) }
            } else {
                *old(self)
            },
    {
        if choosing && self.held_row.is_none() {
            Hold::Start
        } else if !choosing {
            match self.held_row {
                Some(offset) => {
                    self.held_row = None;
                    Hold::Release(offset)
                },
                None => Hold::Keep,
            }
        } else {
            Hold::Keep
        }
    }

    /// Records the row that holding found, if any.
    pub fn held(&mut self, offset: Option<usize>)
        ensures
            *final(self) == (Poller { held_row: offset, ..*old(self) }),
    {
        self.held_row = offset;
    }

    /// Whether a row of the played bag is held still.
    pub fn row_held(&self) -> (r: bool)
        ensures
            r == self.held_row is Some,
    {
        self.held_row.is_some()
    }

    /// Whichever selection is live is checked whenever it moves, not only
    /// after a scroll: the game's own down-move can land on the tail of a
    /// two-slot item. What to settle, if the selection moved.
    pub fn selection(&mut self, active: Option<(Target, i32)>) -> (r: Option<Target>)
        ensures
            r == if active != old(self).last_active {
                match active {
                    Some(p) => Some(p.0),
                    None => None,
                }
            } else {
                None
            },
            *final(self) == (Poller { last_active: active, ..*old(self) }),
    {
        let moved = !same_selection(active, self.last_active);
        self.last_active = active;
        if moved {
            match active {
                Some((t, _)) => Some(t),
                None => None,
            }
        } else {
            None
        }
    }

    /// Whether "down" was just pressed.
    pub fn down(&mut self, down: bool) -> (pressed: bool)
        ensures
            pressed == (down && !old(self).down_was_down),
            *final(self) == (Poller { down_was_down: down, ..*old(self) }),
    {
        let pressed = down && !self.down_was_down;
        self.down_was_down = down;
        pressed
    }

    /// The thumbstick clicks just made: the right one scrolls outright, the
    /// left one shows the box.
    pub fn clicks(&mut self, buttons: u16) -> (r: (bool, bool))
        ensures
            r.0 == (buttons & BUTTON_RIGHT_THUMB != 0 && !old(self).cycle_was_down),
            r.1 == (buttons & BUTTON_LEFT_THUMB != 0 && !old(self).box_was_down),
            *final(self) == (Poller {
                cycle_was_down: buttons & BUTTON_RIGHT_THUMB != 0,
                box_was_down: buttons & BUTTON_LEFT_THUMB != 0,
                ..*old(self)
            }),
    {
        let cycle = buttons & BUTTON_RIGHT_THUMB != 0;
        let show_box = buttons & BUTTON_LEFT_THUMB != 0;
        let r = (cycle && !self.cycle_was_down, show_box && !self.box_was_down);
        self.cycle_was_down = cycle;
        self.box_was_down = show_box;
        r
    }

    /// Whether the controller reports for the first time: the moment to say
    /// so in the log.
    pub fn pad(&mut self, buttons: u16, stick_y: i16) -> (first: bool)
        ensures
            first == (!old(self).pad_seen && (buttons != 0 || stick_y > STICK_THRESHOLD || stick_y
                < -STICK_THRESHOLD)),
            *final(self) == (Poller { pad_seen: old(self).pad_seen || first, ..*old(self) }),
    {
        let first = !self.pad_seen && pad_reporting(buttons, stick_y);
        if first {
            self.pad_seen = true;
        }
        first
    }
}

fn same_target(a: Target, b: Target) -> (r: bool)
    ensures
        r == (a == b),
{
    match (a, b) {
        (Target::Bags, Target::Bags) => true,
        (Target::Box, Target::Box) => true,
        (Target::Partner(x), Target::Partner(y)) => x == y,
        _ => false,
    }
}

fn same_selection(a: Option<(Target, i32)>, b: Option<(Target, i32)>) -> (r: bool)
    ensures
        r == (a == b),
{
    match (a, b) {
        (None, None) => true,
        (Some((t, c)), Some((u, d))) => same_target(t, u) && c == d,
        _ => false,
    }
}

/// The commands whose keys rose among the first `n` keys, in order.
pub open spec fn pressed_commands(was: Seq<bool>, down: Seq<bool>, debug_keys: bool, n: int) -> Seq<Command>
    decreases n,
{
    if n <= 0 {
        seq![]
    } else {
        let earlier = pressed_commands(was, down, debug_keys, n - 1);
        let k = n - 1;
        if down[k] && !was[k] {
            match command_spec(command_keys()[k], debug_keys) {
                Some(c) => earlier.push(c),
                None => earlier,
            }
        } else {
            earlier
        }
    }
}

/// How an edge scroll goes: a row down, else back to the top.
#[derive(Clone, Copy, PartialEq, Eq, Debug, Structural)]
pub enum EdgeScroll {
    /// Nothing to scroll, or the selection is not on the bottom row.
    Stay,
    /// Scroll a row down; rewind to the top if there is no row left.
    Advance(Target),
}

pub open spec fn edge_spec(target: Option<Target>, phase: Option<Phase>, cursors: Cursors) -> EdgeScroll {
    match target {
        None => EdgeScroll::Stay,
        Some(t) => match moving_cursor_spec(t, phase, cursors) {
            Some(c) => if c >= BAG_SIZE - COLUMNS {
                EdgeScroll::Advance(t)
            } else {
                EdgeScroll::Stay
            },
            None => EdgeScroll::Stay,
        },
    }
}

/// What pressing down against the panel does: with the selection on the
/// bottom row of whatever may scroll, the next rows arrive under it.
pub fn edge_scroll(target: Option<Target>, phase: Option<Phase>, cursors: Cursors) -> (r: EdgeScroll)
    ensures
        r == edge_spec(target, phase, cursors),
{
    match target {
        None => EdgeScroll::Stay,
        Some(t) => match moving_cursor(t, phase, cursors) {
            Some(c) => if on_bottom_row(c) {
                EdgeScroll::Advance(t)
            } else {
                EdgeScroll::Stay
            },
            None => EdgeScroll::Stay,
        },
    }
}

/// The item id a two-slot item leaves in its second slot.
pub open spec fn on_tail_spec(item_id: Option<i32>) -> bool {
    item_id == Some(crate::inventory::SLOT_TWO_FILLER)
}

/// Whether the selection rests on the tail of a two-slot item, which the
/// game never allows and which ends the game when examined; `item_id` is the
/// id of the item under it.
pub fn on_tail(item_id: Option<i32>) -> (r: bool)
    ensures
        r == on_tail_spec(item_id),
{
    match item_id {
        Some(id) => id == crate::inventory::SLOT_TWO_FILLER,
        None => false,
    }
}

/// A key held down across polls gives its command once: a poll that finds
/// the keys as the last one left them gives nothing.
pub proof fn law_held_key_fires_once(down: Seq<bool>, debug_keys: bool, n: int)
    ensures
        pressed_commands(down, down, debug_keys, n) == Seq::<Command>::empty(),
    decreases n,
{
    if n > 0 {
        law_held_key_fires_once(down, debug_keys, n - 1);
    }
}


/// The moving selection: over the bags the played half's (the second item's
/// while one is chosen), and in the box or an exchange the partner half's
/// own, whatever the played half's cursor was left at.
pub proof fn law_the_partner_half_moves_its_own_cursor(o: usize, phase: Option<Phase>, cursors: Cursors)
    ensures
        moving_cursor_spec(Target::Partner(o), phase, cursors) == cursors.partner,
        moving_cursor_spec(Target::Box, phase, cursors) == cursors.partner,
        phase != Some(Phase::SecondItem) ==> moving_cursor_spec(Target::Bags, phase, cursors)
            == cursors.first,
        phase == Some(Phase::SecondItem) ==> moving_cursor_spec(Target::Bags, phase, cursors)
            == cursors.second,
        active_spec(Some(Target::Partner(o)), phase, cursors) == match cursors.partner {
            Some(c) => Some((Target::Partner(o), c)),
            None => None::<(Target, i32)>,
        },
        active_spec(Some(Target::Box), phase, cursors) == match cursors.partner {
            Some(c) => Some((Target::Box, c)),
            None => None::<(Target, i32)>,
        },
{
}

/// Pressing down with the moving selection on either slot of the panel's
/// bottom row brings the next rows in; with it higher up, or with nothing to
/// scroll or no selection, nothing moves.
pub proof fn law_down_on_the_bottom_row_scrolls(t: Target, phase: Option<Phase>, cursors: Cursors, c: i32)
    requires
        moving_cursor_spec(t, phase, cursors) == Some(c),
    ensures
        c == 4 || c == 5 ==> edge_spec(Some(t), phase, cursors) == EdgeScroll::Advance(t),
        c >= 4 ==> edge_spec(Some(t), phase, cursors) == EdgeScroll::Advance(t),
        c < 4 ==> edge_spec(Some(t), phase, cursors) == EdgeScroll::Stay,
        t is Partner ==> cursors.partner == Some(c),
        edge_spec(None, phase, cursors) == EdgeScroll::Stay,
{
    law_the_partner_half_moves_its_own_cursor(0, phase, cursors);
    if let Target::Partner(o) = t {
        law_the_partner_half_moves_its_own_cursor(o, phase, cursors);
    }
}

/// With no cursor to move, pressing down scrolls nothing.
pub proof fn law_no_cursor_no_scroll(t: Target, phase: Option<Phase>, cursors: Cursors)
    requires
        moving_cursor_spec(t, phase, cursors) is None,
    ensures
        edge_spec(Some(t), phase, cursors) == EdgeScroll::Stay,
{
}

} // verus!
