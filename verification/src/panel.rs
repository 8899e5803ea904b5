//! The inventory panel: the menu object's fields the mod reads, and the
//! bookkeeping around redrawing it and lending its partner half to the box.
//!
//! The panel is built when the menu opens rather than redrawn each frame, so
//! changing what a bag holds is not enough: the drawing has to be asked to run
//! again. The request is made from the mod's own thread and honoured from the
//! game's, on the next accessor call, and only while it is fresh. The host
//! reads and writes the menu object and calls the drawing; this module decides
//! what to read, what to write and when to draw.

use vstd::prelude::*;

use crate::bytes::{le_i32, read_i32};

verus! {

/// A pending transition, `menu+0x290`: set by an action for the update's
/// tail to carry out and cleared there.
pub const OFFSET_TRANSITION: usize = 0x290;

/// Counter the menu bumps as it moves between states.
pub const OFFSET_PHASE: usize = 0x294;

/// What the action submenu is doing: three at rest, one while Combine waits
/// for its second item, two while the exchange action does.
pub const OFFSET_MODE: usize = 0x2AC;

pub const OFFSET_ACTION: usize = 0x2B0;

/// The played half's selection, 0 to 5; two columns, so a row is two.
pub const OFFSET_CURSOR: usize = 0x2B4;

/// The slot confirmed for the action submenu, read by every action in place
/// of the live cursor.
pub const OFFSET_SAVED_SLOT: usize = 0x2B8;

/// The partner half's own selection.
pub const OFFSET_PARTNER_CURSOR: usize = 0x2BC;

/// The column the player wanted when the game pulled the selection left onto
/// the head of a two-slot item; its saved copy follows it.
pub const OFFSET_COLUMN_PREFERENCE: usize = 0x2C4;

/// Whether the selection is on the personal item.
pub const OFFSET_ON_PERSONAL: usize = 0x2C8;

/// Set while the partner's half of the screen is on show.
pub const OFFSET_PARTNER_SHOWN: usize = 0x2CA;

/// Whether items may be moved between the two halves. Zero allows it.
pub const OFFSET_EXCHANGE: usize = 0x28B;

pub const EXCHANGE_ALLOWED: u8 = 0;

/// The fields that looked like a selection, for telling them apart.
pub const CURSOR_CANDIDATES: [usize; 4] = [0x2AC, 0x2B0, 0x2B4, 0x2BC];

/// Bytes of the menu object the fields above lie in.
pub const MENU_FIELDS_END: usize = 0x2CB;

/// The phase the menu rests at while the inventory is not on screen.
pub const PHASE_CLOSED: i32 = 0;

/// The phase in which the selection moves freely over the played half.
pub const PHASE_BROWSING: i32 = 2;

/// The phase while the selection is in the partner's half.
pub const PHASE_PARTNER_HALF: i32 = 7;

pub const MODE_COMBINE: i32 = 1;

pub const MODE_EXCHANGE: i32 = 2;

/// How long a redraw request stays worth honouring, in milliseconds. Scrolling
/// and the next frame are milliseconds apart; anything older than this did
/// not get its chance and is not going to.
pub const REDRAW_DEADLINE_MS: u64 = 500;

/// The menu fields the mod reasons about, for watching them change.
#[derive(Clone, Copy, Debug, PartialEq, Eq)]
pub struct Snapshot {
    pub phase: i32,
    pub transition: i32,
    pub mode: i32,
    pub action: i32,
    pub cursor: i32,
    pub saved_slot: i32,
    pub partner_cursor: i32,
    /// `+0x2C4`, `+0x2C5`, `+0x2C8`: the column preference, its saved copy,
    /// and whether the selection is on the personal item.
    pub flags: [u8; 3],
}

/// The `i32` field at `offset` of the menu bytes `menu`, when they reach it.
pub open spec fn field_at(menu: Seq<u8>, offset: int) -> Option<i32> {
    if 0 <= offset && offset + 4 <= menu.len() {
        Some(le_i32(menu, offset))
    } else {
        None
    }
}

/// Reads the `i32` field at `offset`; `None` past the bytes the host read.
pub fn field(menu: &[u8], offset: usize) -> (r: Option<i32>)
    ensures
        r == field_at(menu@, offset as int),
{
    if offset <= menu.len() && menu.len() - offset >= 4 {
        Some(read_i32(menu, offset))
    } else {
        None
    }
}

/// The menu's state counter.
pub fn phase(menu: &[u8]) -> (r: Option<i32>)
    ensures
        r == field_at(menu@, OFFSET_PHASE as int),
{
    field(menu, OFFSET_PHASE)
}

/// Where the selection is, as the game sees it.
pub fn cursor(menu: &[u8]) -> (r: Option<i32>)
    ensures
        r == field_at(menu@, OFFSET_CURSOR as int),
{
    field(menu, OFFSET_CURSOR)
}

/// Where the selection is inside the partner's half.
pub fn partner_cursor(menu: &[u8]) -> (r: Option<i32>)
    ensures
        r == field_at(menu@, OFFSET_PARTNER_CURSOR as int),
{
    field(menu, OFFSET_PARTNER_CURSOR)
}

/// The slot the action submenu is working on.
pub fn saved_slot(menu: &[u8]) -> (r: Option<i32>)
    ensures
        r == field_at(menu@, OFFSET_SAVED_SLOT as int),
{
    field(menu, OFFSET_SAVED_SLOT)
}

/// What the action submenu is doing; see `MODE_COMBINE`.
pub fn mode(menu: &[u8]) -> (r: Option<i32>)
    ensures
        r == field_at(menu@, OFFSET_MODE as int),
{
    field(menu, OFFSET_MODE)
}

/// All four selection candidates at once.
pub fn cursor_candidates(menu: &[u8]) -> (r: [Option<i32>; 4])
    ensures
        forall|k: int| 0 <= k < 4 ==> #[trigger] r@[k] == field_at(menu@, CURSOR_CANDIDATES@[k] as int),
{
    let r = [
        field(menu, CURSOR_CANDIDATES[0]),
        field(menu, CURSOR_CANDIDATES[1]),
        field(menu, CURSOR_CANDIDATES[2]),
        field(menu, CURSOR_CANDIDATES[3]),
    ];
    assert(CURSOR_CANDIDATES@ == seq![0x2ACusize, 0x2B0, 0x2B4, 0x2BC]);
    r
}

/// Whether the inventory screen is up. Every open and close runs phases
/// `0 -> 1 -> 2`, stays at two or above while the screen is up, then
/// `-> 3 -> 0`; so anything but zero means open.
pub fn is_open(phase: Option<i32>) -> (r: bool)
    ensures
        r == (phase matches Some(p) && p != PHASE_CLOSED),
{
    match phase {
        Some(p) => p != PHASE_CLOSED,
        None => false,
    }
}

/// The snapshot the bytes `menu` give, from the object's start.
pub open spec fn snapshot_of(menu: Seq<u8>) -> Snapshot {
    Snapshot {
        phase: le_i32(menu, OFFSET_PHASE as int),
        transition: le_i32(menu, OFFSET_TRANSITION as int),
        mode: le_i32(menu, OFFSET_MODE as int),
        action: le_i32(menu, OFFSET_ACTION as int),
        cursor: le_i32(menu, OFFSET_CURSOR as int),
        saved_slot: le_i32(menu, OFFSET_SAVED_SLOT as int),
        partner_cursor: le_i32(menu, OFFSET_PARTNER_CURSOR as int),
        flags: [
            menu[OFFSET_COLUMN_PREFERENCE as int],
            menu[OFFSET_COLUMN_PREFERENCE + 1],
            menu[OFFSET_ON_PERSONAL as int],
        ],
    }
}

/// The fields the mod reasons about; `None` when the bytes read do not
/// reach all of them.
pub fn snapshot(menu: &[u8]) -> (r: Option<Snapshot>)
    ensures
        r == if menu@.len() >= MENU_FIELDS_END {
            Some(snapshot_of(menu@))
        } else {
            None
        },
{
    if menu.len() < MENU_FIELDS_END {
        return None;
    }
    Some(
        Snapshot {
            phase: read_i32(menu, OFFSET_PHASE),
            transition: read_i32(menu, OFFSET_TRANSITION),
            mode: read_i32(menu, OFFSET_MODE),
            action: read_i32(menu, OFFSET_ACTION),
            cursor: read_i32(menu, OFFSET_CURSOR),
            saved_slot: read_i32(menu, OFFSET_SAVED_SLOT),
            partner_cursor: read_i32(menu, OFFSET_PARTNER_CURSOR),
            flags: [
                menu[OFFSET_COLUMN_PREFERENCE],
                menu[OFFSET_COLUMN_PREFERENCE + 1],
                menu[OFFSET_ON_PERSONAL],
            ],
        },
    )
}

/// Where a selection resting on the tail of a two-slot item moves to: one
/// slot left, onto the head, as the game's own moves do. `None` when it is
/// already in the first slot and there is nothing to pull.
pub fn pulled_left(cursor: i32) -> (r: Option<i32>)
    ensures
        r == if cursor <= 0 {
            None
        } else {
            Some((cursor - 1) as i32)
        },
{
    if cursor <= 0 {
        None
    } else {
        Some(cursor - 1)
    }
}

/// What the host writes into the menu object.
#[derive(Clone, Copy, Debug, PartialEq, Eq, Structural)]
pub struct MenuWrites {
    /// The new partner-shown byte, when it changes.
    pub partner_shown: Option<u8>,
    /// The new exchange byte, when it changes.
    pub exchange: Option<u8>,
}

/// What the mod knows of the panel between frames.
pub struct Panel {
    /// The menu object the panel was last drawn against; zero until the
    /// inventory has been opened.
    menu: usize,
    draws: usize,
    /// When the panel was last reported out of date, in the host's
    /// milliseconds.
    requested_at: Option<u64>,
    /// A redraw is running: the drawing asks for the bags, which comes back
    /// here, and must not start another.
    redrawing: bool,
    /// What the game had in the exchange field before the box took it over.
    saved_exchange: Option<u8>,
    /// Whether the box's fields have been forced since it last showed.
    forced: bool,
}

impl Panel {
    pub closed spec fn menu_of(&self) -> usize {
        self.menu
    }

    pub closed spec fn draws_of(&self) -> usize {
        self.draws
    }

    pub closed spec fn requested_of(&self) -> Option<u64> {
        self.requested_at
    }

    pub closed spec fn redrawing_of(&self) -> bool {
        self.redrawing
    }

    pub closed spec fn saved_exchange_of(&self) -> Option<u8> {
        self.saved_exchange
    }

    pub closed spec fn forced_of(&self) -> bool {
        self.forced
    }

    /// Nothing drawn, nothing requested, nothing borrowed.
    pub fn new() -> (r: Panel)
        ensures
            r.menu_of() == 0,
            r.draws_of() == 0,
            r.requested_of() is None,
            !r.redrawing_of(),
            r.saved_exchange_of() is None,
            !r.forced_of(),
    {
        Panel { menu: 0, draws: 0, requested_at: None, redrawing: false, saved_exchange: None, forced: false }
    }

    /// The menu object, if the inventory has been drawn at least once.
    pub fn menu(&self) -> (r: Option<usize>)
        ensures
            r == if self.menu_of() == 0 {
                None
            } else {
                Some(self.menu_of())
            },
    {
        if self.menu == 0 {
            None
        } else {
            Some(self.menu)
        }
    }

    /// How many times the panel has been drawn.
    pub fn draw_count(&self) -> (r: usize)
        ensures
            r == self.draws_of(),
    {
        self.draws
    }

    /// Says the panel is out of date, at `now`.
    pub fn request_redraw(&mut self, now: u64)
        ensures
            final(self).requested_of() == Some(now),
            final(self).menu_of() == old(self).menu_of(),
            final(self).draws_of() == old(self).draws_of(),
            final(self).redrawing_of() == old(self).redrawing_of(),
            final(self).saved_exchange_of() == old(self).saved_exchange_of(),
            final(self).forced_of() == old(self).forced_of(),
    {
        self.requested_at = Some(now);
    }

    /// The panel is being drawn against `menu`, with the box showing or not
    /// and the menu's partner-shown and exchange bytes as given. Records the
    /// menu when it is a plausible object, and says what to write so that the
    /// partner half shows and takes items while the box is in it. The game
    /// writes both bytes itself, so this runs on every draw.
    pub fn observe(&mut self, menu: usize, box_open: bool, partner_shown: u8, exchange: u8) -> (r: MenuWrites)
        ensures
            final(self).menu_of() == if menu != 0 && menu % 4 == 0 {
                menu
            } else {
                old(self).menu_of()
            },
            final(self).draws_of() == if old(self).draws_of() < usize::MAX {
                old(self).draws_of() + 1
            } else {
                old(self).draws_of() as int
            },
            final(self).requested_of() == old(self).requested_of(),
            final(self).redrawing_of() == old(self).redrawing_of(),
            if menu != 0 && menu % 4 == 0 && box_open {
                &&& final(self).forced_of()
                &&& r.partner_shown == if partner_shown == 0 {
                    Some(1u8)
                } else {
                    None
                }
                &&& r.exchange == if exchange == EXCHANGE_ALLOWED {
                    None
                } else {
                    Some(EXCHANGE_ALLOWED)
                }
                &&& final(self).saved_exchange_of() == if exchange != EXCHANGE_ALLOWED
                    && old(self).saved_exchange_of() is None {
                    Some(exchange)
                } else {
                    old(self).saved_exchange_of()
                }
            } else {
                &&& r == MenuWrites { partner_shown: None, exchange: None }
                &&& final(self).forced_of() == old(self).forced_of()
                &&& final(self).saved_exchange_of() == old(self).saved_exchange_of()
            },
    {
        let mut writes = MenuWrites { partner_shown: None, exchange: None };
        if menu != 0 && menu % 4 == 0 {
            self.menu = menu;
            if box_open {
                self.forced = true;
                if partner_shown == 0 {
                    writes.partner_shown = Some(1);
                }
                if exchange != EXCHANGE_ALLOWED {
                    if self.saved_exchange.is_none() {
                        self.saved_exchange = Some(exchange);
                    }
                    writes.exchange = Some(EXCHANGE_ALLOWED);
                }
            }
        }
        self.draws = self.draws.saturating_add(1);
        writes
    }

    /// Takes the pending redraw request, if there is one, and says whether
    /// it was still fresh at `now`.
    pub fn take_request(&mut self, now: u64) -> (r: bool)
        ensures
            final(self).requested_of() is None,
            r == (old(self).requested_of() matches Some(at) && fresh(at, now)),
            final(self).menu_of() == old(self).menu_of(),
            final(self).draws_of() == old(self).draws_of(),
            final(self).redrawing_of() == old(self).redrawing_of(),
            final(self).saved_exchange_of() == old(self).saved_exchange_of(),
            final(self).forced_of() == old(self).forced_of(),
    {
        match self.requested_at.take() {
            None => false,
            Some(at) => {
                let elapsed = if now >= at {
                    now - at
                } else {
                    0
                };
                elapsed < REDRAW_DEADLINE_MS
            },
        }
    }

    /// Decides whether to redraw now, from the game's thread mid-frame: only
    /// with the screen `open` (a request for a closed screen stays pending:
    /// its object may be gone), a fresh request, a known menu, the drawing's
    /// address known (`draw`, zero when not), and no redraw already running.
    /// Gives the drawing function and the menu to call it on, and then counts
    /// a redraw as running until `redraw_finished`.
    pub fn redraw_if_requested(&mut self, open: bool, now: u64, draw: usize) -> (r: Option<(usize, usize)>)
        ensures
            final(self).menu_of() == old(self).menu_of(),
            final(self).draws_of() == old(self).draws_of(),
            final(self).saved_exchange_of() == old(self).saved_exchange_of(),
            final(self).forced_of() == old(self).forced_of(),
            !open ==> r is None && final(self).requested_of() == old(self).requested_of()
                && final(self).redrawing_of() == old(self).redrawing_of(),
            open ==> final(self).requested_of() is None,
            r is Some <==> (open && (old(self).requested_of() matches Some(at) && fresh(at, now))
                && old(self).menu_of() != 0 && draw != 0 && !old(self).redrawing_of()),
            r matches Some((d, m)) ==> d == draw && m == old(self).menu_of() && final(self).redrawing_of(),
            r is None ==> final(self).redrawing_of() == old(self).redrawing_of(),
    {
        if !open {
            return None;
        }
        if !self.take_request(now) {
            return None;
        }
        if self.menu == 0 || draw == 0 || self.redrawing {
            return None;
        }
        self.redrawing = true;
        Some((draw, self.menu))
    }

    /// The redraw started by `redraw_if_requested` is over, however it ended.
    pub fn redraw_finished(&mut self)
        ensures
            !final(self).redrawing_of(),
            final(self).menu_of() == old(self).menu_of(),
            final(self).draws_of() == old(self).draws_of(),
            final(self).requested_of() == old(self).requested_of(),
            final(self).saved_exchange_of() == old(self).saved_exchange_of(),
            final(self).forced_of() == old(self).forced_of(),
    {
        self.redrawing = false;
    }

    /// The exchange byte to put back for a menu still in hand, as when the
    /// box closes because the played character changed.
    pub fn restore_exchange(&self) -> (r: Option<u8>)
        ensures
            r == self.saved_exchange_of(),
    {
        self.saved_exchange
    }

    /// The screen is closing: forgets what was forced, and gives the menu and
    /// the exchange byte the game had, to write back while the object is
    /// still alive. `None` when nothing was changed or no menu is known.
    pub fn restore_partner_half(&mut self) -> (r: Option<(usize, u8)>)
        ensures
            !final(self).forced_of(),
            final(self).saved_exchange_of() is None,
            final(self).menu_of() == old(self).menu_of(),
            final(self).draws_of() == old(self).draws_of(),
            final(self).requested_of() == old(self).requested_of(),
            final(self).redrawing_of() == old(self).redrawing_of(),
            r == match old(self).saved_exchange_of() {
                Some(original) => if old(self).menu_of() != 0 {
                    Some((old(self).menu_of(), original))
                } else {
                    None
                },
                None => None,
            },
    {
        self.forced = false;
        match self.saved_exchange.take() {
            None => None,
            Some(original) => if self.menu == 0 {
                None
            } else {
                Some((self.menu, original))
            },
        }
    }
}

/// Whether a request made at `at` is still worth honouring at `now`.
pub open spec fn fresh(at: u64, now: u64) -> bool {
    (if now >= at {
        now - at
    } else {
        0
    }) < REDRAW_DEADLINE_MS
}

} // verus!
