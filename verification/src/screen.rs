//! Making the inventory screen show the box in the partner's half.
//!
//! The screen decides three things at three moments, and all three have to
//! agree before the box is usable: whether the partner half comes on screen at
//! all (the opening animation's id; one brings that half in), whether the half
//! is marked as displayed, and whether exchanging is allowed. The last is the
//! game's own state and is put back when the box closes: left forced, it would
//! let the player hand items to a partner on the other side of the map.
//!
//! Whose partner it was is remembered too. Swapping to the other character
//! mid-screen means the box is no longer the thing in the other half, and the
//! box closes outright: half-open, the accessors would keep answering
//! questions about that character with the box's contents.
//!
//! The host writes the patches planned here and runs the trampolines, which
//! ask this module what to do.

use vstd::prelude::*;

use crate::detour::{call_bytes, call_destination, call_of, call_target, displacement, fits_i32, Patch, PatchSet};
use crate::doors::PatchPlan;
use crate::game::Addresses;
use crate::prompt::{call_plan, call_view, jump_plan, jump_view, opt_view};

verus! {

/// `inc dword ptr [edi+0x294]`.
pub const BUMP_PHASE: [u8; 6] = [0xFF, 0x87, 0x94, 0x02, 0x00, 0x00];

/// `cmp byte ptr [edi+0x2CA], 1`.
pub const TEST_PARTNER_SHOWN: [u8; 7] = [0x80, 0xBF, 0xCA, 0x02, 0x00, 0x00, 0x01];

/// `mov eax, [esi+0x60]; push 0`.
pub const CLOSING: [u8; 5] = [0x8B, 0x46, 0x60, 0x6A, 0x00];

/// `cmp byte ptr [eax+0x25], 1; je 0x005E50F7`.
pub const VALIDATION: [u8; 10] = [0x80, 0x78, 0x25, 0x01, 0x0F, 0x84, 0x4F, 0x15, 0x00, 0x00];

/// The opening animation that brings the partner half on screen.
pub const PARTNER_ANIMATION: i32 = 1;

/// Byte `0x25` of the partner's unit, set when the partner has walked away.
pub const UNIT_GONE: u8 = 1;

/// Addresses of the host's trampolines.
#[derive(Clone, Copy, Debug)]
pub struct ScreenHandlers {
    pub animation: usize,
    pub start: usize,
    pub change: usize,
    pub close: usize,
    pub valid: usize,
}

/// Whether the call found at the animation site goes to the animation we
/// know about: a table that has drifted shows up as a refusal here, not as a
/// jump into the middle of something else.
pub open spec fn animates_as_expected(a: Addresses, found: Seq<u8>) -> bool {
    call_destination(a.inventory_open_animation, found) == Some(a.play_menu_animation as int)
}

/// The screen's five patches, each `None` when it cannot be planned.
pub open spec fn screen_views(a: Addresses, h: ScreenHandlers, found: Seq<u8>) -> Seq<
    Option<crate::doors::PlanView>,
> {
    seq![
        if animates_as_expected(a, found) && fits_i32(
            displacement(a.inventory_open_animation, a.play_menu_animation),
        ) {
            call_view(
                "the opening animation"@,
                a.inventory_open_animation,
                call_of(a.inventory_open_animation, a.play_menu_animation),
                h.animation,
            )
        } else {
            None
        },
        jump_view("the screen finishing its setup"@, a.inventory_menu_start, BUMP_PHASE@, h.start),
        jump_view(
            "the played character changing"@,
            a.inventory_change_character,
            TEST_PARTNER_SHOWN@,
            h.change,
        ),
        jump_view("the screen closing"@, a.inventory_menu_close, CLOSING@, h.close),
        jump_view("the partner-half validation"@, a.partner_half_valid, VALIDATION@, h.valid),
    ]
}

/// Plans the screen's patches, `animation_found` being the five bytes at the
/// animation site. Each entry is `None` when it cannot be planned; the rest
/// still apply.
pub fn screen_patches(a: &Addresses, h: &ScreenHandlers, animation_found: &[u8]) -> (r: Vec<
    Option<PatchPlan>,
>)
    ensures
        r@.map_values(|p: Option<PatchPlan>| opt_view(p)) == screen_views(*a, *h, animation_found@),
{
    let animation = match call_target(a.inventory_open_animation, animation_found) {
        Some(target) if target == a.play_menu_animation => match call_bytes(
            a.inventory_open_animation,
            a.play_menu_animation,
        ) {
            Some(expected) => call_plan(
                "the opening animation",
                a.inventory_open_animation,
                &expected,
                h.animation,
            ),
            None => None,
        },
        _ => None,
    };
    let bump = BUMP_PHASE;
    let test = TEST_PARTNER_SHOWN;
    let closing = CLOSING;
    let validation = VALIDATION;
    let r = vec![
        animation,
        jump_plan("the screen finishing its setup", a.inventory_menu_start, &bump, h.start),
        jump_plan("the played character changing", a.inventory_change_character, &test, h.change),
        jump_plan("the screen closing", a.inventory_menu_close, &closing, h.close),
        jump_plan("the partner-half validation", a.partner_half_valid, &validation, h.valid),
    ];
    assert(r@.map_values(|p: Option<PatchPlan>| opt_view(p)) =~= screen_views(*a, *h, animation_found@));
    r
}

/// What the played character changing does to the box.
#[derive(Clone, Copy, Debug, PartialEq, Eq, Structural)]
pub enum PartnerChange {
    /// The box is not showing; nothing to do.
    Nothing,
    /// The other half is still the partner the box stands in for: keep
    /// exchanging allowed.
    StillOurs,
    /// The other half is a real character again: close the box and put the
    /// exchange field back.
    BoxLeaves,
}

/// What the screen remembers while the box is in it.
pub struct Screen {
    /// The partner the box stood in for; zero when there was nobody.
    box_partner: usize,
}

impl Screen {
    pub closed spec fn box_partner_of(&self) -> usize {
        self.box_partner
    }

    pub fn new() -> (r: Screen)
        ensures
            r.box_partner_of() == 0,
    {
        Screen { box_partner: 0 }
    }

    /// The screen is opening: whether to play the animation that brings the
    /// partner half in (and mark that half shown), which is when the box is
    /// showing.
    pub fn opening_screen(&self, box_open: bool) -> (r: bool)
        ensures
            r == box_open,
    {
        box_open
    }

    /// The screen finished its setup, with `partner` (zero for nobody) the
    /// partner now. While the box shows, whoever that is is who the box
    /// stands in for; gives whether to mark the half shown and force
    /// exchanging open.
    pub fn screen_ready(&mut self, box_open: bool, partner: usize) -> (r: bool)
        ensures
            r == box_open,
            final(self).box_partner_of() == if box_open {
                partner
            } else {
                old(self).box_partner_of()
            },
    {
        if box_open {
            self.box_partner = partner;
        }
        box_open
    }

    /// The played character changed while the screen is up, the partner now
    /// being `partner`.
    pub fn character_changed(&self, box_open: bool, partner: usize) -> (r: PartnerChange)
        ensures
            r == if !box_open {
                PartnerChange::Nothing
            } else if partner == self.box_partner_of() {
                PartnerChange::StillOurs
            } else {
                PartnerChange::BoxLeaves
            },
    {
        if !box_open {
            PartnerChange::Nothing
        } else if partner == self.box_partner {
            PartnerChange::StillOurs
        } else {
            PartnerChange::BoxLeaves
        }
    }
}

/// Whether the selection is thrown out of the partner half: the game's own
/// check, that byte `0x25` of the partner's unit says it walked away (`gone`,
/// `None` when unreadable). A box does not walk away, so while it shows the
/// check always passes.
pub fn still_valid(box_open: bool, gone: Option<u8>) -> (r: i32)
    ensures
        r == if !box_open && gone == Some(UNIT_GONE) {
            1i32
        } else {
            0i32
        },
{
    if box_open {
        return 0;
    }
    match gone {
        Some(b) => if b == UNIT_GONE {
            1
        } else {
            0
        },
        None => 0,
    }
}

/// Everything the screen feature changed, so it can all be put back.
pub struct Menu {
    patches: PatchSet,
}

impl Menu {
    pub closed spec fn applied(&self) -> Seq<Patch> {
        self.patches.applied()
    }

    /// The patches that took, in the order they were written.
    pub fn new(patches: Vec<Patch>) -> (r: Menu)
        ensures
            r.applied() == patches@,
    {
        Menu { patches: PatchSet::new(patches) }
    }

    pub fn len(&self) -> (r: usize)
        ensures
            r == self.applied().len(),
    {
        self.patches.len()
    }

    /// Hands back the patches to revert, the last written first, and forgets
    /// them.
    pub fn remove(&mut self) -> (r: Vec<Patch>)
        ensures
            r@ == old(self).applied().reverse(),
            final(self).applied() == Seq::<Patch>::empty(),
    {
        self.patches.remove()
    }
}

} // verus!
