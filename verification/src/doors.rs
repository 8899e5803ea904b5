//! Skipping the animation the game plays when walking through a door.
//!
//! The door transition is a six-state machine whose middle plays a door model
//! while the room changes behind it. Its timer is padding on top of the room
//! change, not a race with it: the state ends only once the room change
//! reports done, and an expired timer is simply re-armed. So the timer can be
//! set to a small positive value, and the fades around it shortened.
//!
//! Two values soft-lock the game: `0.0` skips the block that asks about the
//! room change, and `-1.0` lands in the re-arm. The value here is neither.
//!
//! Each patch names the bytes it expects to overwrite. One that does not
//! match is skipped, and the rest still apply: a partly shortened transition
//! is a cosmetic disappointment, while writing over an instruction that is
//! not what it is thought to be corrupts the game. Writing the bytes is the
//! host's.

use vstd::prelude::*;

use crate::detour::{Patch, PatchSet};
use crate::game::Addresses;

verus! {

/// The bits of `0.001f32`: what the animation timer is set to instead of two
/// seconds. Small and positive.
pub const BRIEF_BITS: u32 = 0x3A83_126F;

/// The bits of `0.05f32`: what the fades are shortened to. Not zero either: a
/// fade that never completes is the same soft-lock by another route.
pub const QUICK_FADE_BITS: u32 = 0x3D4C_CCCD;

pub const NOP: u8 = 0x90;

/// A write to make, with the bytes it must find first.
pub struct PatchPlan {
    pub what: &'static str,
    pub address: usize,
    pub expected: Vec<u8>,
    pub replacement: Vec<u8>,
}

/// What a plan holds, as plain values.
pub struct PlanView {
    pub what: Seq<char>,
    pub address: usize,
    pub expected: Seq<u8>,
    pub replacement: Seq<u8>,
}

impl View for PatchPlan {
    type V = PlanView;

    open spec fn view(&self) -> PlanView {
        PlanView {
            what: self.what@,
            address: self.address,
            expected: self.expected@,
            replacement: self.replacement@,
        }
    }
}

pub open spec fn plan_views(plans: Seq<PatchPlan>) -> Seq<PlanView> {
    plans.map_values(|p: PatchPlan| p@)
}

/// The timer's computation: frame time, times two, times a sixtieth, times
/// the motion's frame count, plus two seconds; its first fourteen bytes.
pub open spec fn computed_duration() -> Seq<u8> {
    seq![0xF3, 0x0F, 0x10, 0x40, 0x38, 0xF3, 0x0F, 0x59, 0x05, 0x14, 0xA4, 0xCB, 0x00, 0xF3]
}

/// The rest of that computation, which becomes padding.
pub open spec fn computation_tail() -> Seq<u8> {
    seq![
        0x0F, 0x59, 0x05, 0x24, 0xBE, 0xCC, 0x00, 0xF3, 0x0F, 0x59, 0x81, 0xF4, 0x04, 0x00, 0x00,
        0xF3, 0x0F, 0x58, 0x05, 0x14, 0xA4, 0xCB, 0x00, 0xF3, 0x0F, 0x11, 0x47, 0x2C,
    ]
}

/// `mov dword ptr [edi+0x2C], 1.0f`.
pub open spec fn set_one_second() -> Seq<u8> {
    seq![0xC7, 0x47, 0x2C, 0x00, 0x00, 0x80, 0x3F]
}

/// The four little-endian bytes of `bits`.
pub open spec fn le_bytes(bits: u32) -> Seq<u8> {
    crate::bytes::u32_bytes(bits)
}

/// `mov dword ptr [edi+0x2C], <brief>`, then `movss xmm0, [edi+0x2C]`, then
/// `jmp short +0x1C` over the rest of the computation.
pub open spec fn brief_duration() -> Seq<u8> {
    seq![0xC7u8, 0x47, 0x2C] + le_bytes(BRIEF_BITS) + seq![0xF3u8, 0x0F, 0x10, 0x47, 0x2C] + seq![
        0xEBu8,
        0x1C,
    ]
}

/// `mov dword ptr [edi+0x2C], <brief>`.
pub open spec fn set_brief() -> Seq<u8> {
    seq![0xC7u8, 0x47, 0x2C] + le_bytes(BRIEF_BITS)
}

/// The four timer patches.
pub open spec fn timer_plans(a: Addresses) -> Seq<PlanView> {
    seq![
        PlanView {
            what: "door animation duration"@,
            address: a.door_duration,
            expected: computed_duration(),
            replacement: brief_duration(),
        },
        PlanView {
            what: "door animation duration tail"@,
            address: a.door_duration_tail,
            expected: computation_tail(),
            replacement: Seq::new(28, |i: int| NOP),
        },
        PlanView {
            what: "door duration without a model"@,
            address: a.door_duration_modelless,
            expected: set_one_second(),
            replacement: set_brief(),
        },
        PlanView {
            what: "door duration re-arm"@,
            address: a.door_duration_rearm,
            expected: set_one_second(),
            replacement: set_brief(),
        },
    ]
}

/// Half a second and three tenths, as the fades hold them.
pub open spec fn half_second() -> Seq<u8> {
    seq![0x00, 0x00, 0x00, 0x3F]
}

pub open spec fn three_tenths() -> Seq<u8> {
    seq![0x9A, 0x99, 0x99, 0x3E]
}

/// The four fade patches.
pub open spec fn fade_plans(a: Addresses) -> Seq<PlanView> {
    seq![
        PlanView {
            what: "screen fade out"@,
            address: a.door_fade_screen_out,
            expected: half_second(),
            replacement: le_bytes(QUICK_FADE_BITS),
        },
        PlanView {
            what: "audio fade out"@,
            address: a.door_fade_audio_out,
            expected: half_second(),
            replacement: le_bytes(QUICK_FADE_BITS),
        },
        PlanView {
            what: "fade in over the door"@,
            address: a.door_fade_in,
            expected: half_second(),
            replacement: le_bytes(QUICK_FADE_BITS),
        },
        PlanView {
            what: "final fade"@,
            address: a.door_fade_final,
            expected: three_tenths(),
            replacement: le_bytes(QUICK_FADE_BITS),
        },
    ]
}

fn bytes_of(bits: u32) -> (r: Vec<u8>)
    ensures
        r@ == le_bytes(bits),
{
    let r = vec![
        (bits % 256) as u8,
        ((bits / 256) % 256) as u8,
        ((bits / 65536) % 256) as u8,
        (bits / 16777216) as u8,
    ];
    assert(r@ =~= le_bytes(bits));
    r
}

fn append(out: &mut Vec<u8>, more: &[u8])
    ensures
        final(out)@ == old(out)@ + more@,
{
    let mut i: usize = 0;
    while i < more.len()
        invariant
            i <= more@.len(),
            out@ == old(out)@ + more@.take(i as int),
        decreases more@.len() - i,
    {
        out.push(more[i]);
        i += 1;
        assert(out@ =~= old(out)@ + more@.take(i as int));
    }
    assert(more@.take(more@.len() as int) =~= more@);
}

/// Replaces the three places the animation timer is set: the computation
/// itself, with a constant and a jump over what is left of it, and the two
/// branches that set it to a second.
pub fn timer_patches(a: &Addresses) -> (r: Vec<PatchPlan>)
    ensures
        plan_views(r@) == timer_plans(*a),
{
    let brief = bytes_of(BRIEF_BITS);
    let mut replacement: Vec<u8> = vec![0xC7, 0x47, 0x2C];
    append(&mut replacement, brief.as_slice());
    append(&mut replacement, &[0xF3, 0x0F, 0x10, 0x47, 0x2C]);
    append(&mut replacement, &[0xEB, 0x1C]);
    let mut set_brief_bytes: Vec<u8> = vec![0xC7, 0x47, 0x2C];
    append(&mut set_brief_bytes, brief.as_slice());
    let mut set_brief_again: Vec<u8> = vec![0xC7, 0x47, 0x2C];
    append(&mut set_brief_again, brief.as_slice());
    let mut padding: Vec<u8> = Vec::new();
    let mut i: usize = 0;
    while i < 28
        invariant
            i <= 28,
            padding@ == Seq::new(i as nat, |k: int| NOP),
        decreases 28 - i,
    {
        padding.push(NOP);
        i += 1;
        assert(padding@ =~= Seq::new(i as nat, |k: int| NOP));
    }
    let r = vec![
        PatchPlan {
            what: "door animation duration",
            address: a.door_duration,
            expected: vec![0xF3, 0x0F, 0x10, 0x40, 0x38, 0xF3, 0x0F, 0x59, 0x05, 0x14, 0xA4, 0xCB, 0x00, 0xF3],
            replacement,
        },
        PatchPlan {
            what: "door animation duration tail",
            address: a.door_duration_tail,
            expected: vec![
                0x0F, 0x59, 0x05, 0x24, 0xBE, 0xCC, 0x00, 0xF3, 0x0F, 0x59, 0x81, 0xF4, 0x04, 0x00,
                0x00, 0xF3, 0x0F, 0x58, 0x05, 0x14, 0xA4, 0xCB, 0x00, 0xF3, 0x0F, 0x11, 0x47, 0x2C,
            ],
            replacement: padding,
        },
        PatchPlan {
            what: "door duration without a model",
            address: a.door_duration_modelless,
            expected: vec![0xC7, 0x47, 0x2C, 0x00, 0x00, 0x80, 0x3F],
            replacement: set_brief_bytes,
        },
        PatchPlan {
            what: "door duration re-arm",
            address: a.door_duration_rearm,
            expected: vec![0xC7, 0x47, 0x2C, 0x00, 0x00, 0x80, 0x3F],
            replacement: set_brief_again,
        },
    ];
    proof {
        reveal_strlit("door animation duration");
        reveal_strlit("door animation duration tail");
        reveal_strlit("door duration without a model");
        reveal_strlit("door duration re-arm");
        assert(r@[0].expected@ =~= computed_duration());
        assert(r@[0].replacement@ =~= brief_duration());
        assert(r@[1].expected@ =~= computation_tail());
        assert(r@[2].expected@ =~= set_one_second());
        assert(r@[2].replacement@ =~= set_brief());
        assert(r@[3].expected@ =~= set_one_second());
        assert(r@[3].replacement@ =~= set_brief());
        assert(plan_views(r@) =~= timer_plans(*a));
    }
    r
}

/// Shortens the four fades around the transition. These hide the transition
/// rather than removing it: without them the wait is gone, but the screen
/// still fades out and back in around a glimpse of the door.
pub fn fade_patches(a: &Addresses) -> (r: Vec<PatchPlan>)
    ensures
        plan_views(r@) == fade_plans(*a),
{
    let r = vec![
        PatchPlan {
            what: "screen fade out",
            address: a.door_fade_screen_out,
            expected: vec![0x00, 0x00, 0x00, 0x3F],
            replacement: bytes_of(QUICK_FADE_BITS),
        },
        PatchPlan {
            what: "audio fade out",
            address: a.door_fade_audio_out,
            expected: vec![0x00, 0x00, 0x00, 0x3F],
            replacement: bytes_of(QUICK_FADE_BITS),
        },
        PatchPlan {
            what: "fade in over the door",
            address: a.door_fade_in,
            expected: vec![0x00, 0x00, 0x00, 0x3F],
            replacement: bytes_of(QUICK_FADE_BITS),
        },
        PatchPlan {
            what: "final fade",
            address: a.door_fade_final,
            expected: vec![0x9A, 0x99, 0x99, 0x3E],
            replacement: bytes_of(QUICK_FADE_BITS),
        },
    ];
    proof {
        assert(r@[0].expected@ =~= half_second());
        assert(r@[1].expected@ =~= half_second());
        assert(r@[2].expected@ =~= half_second());
        assert(r@[3].expected@ =~= three_tenths());
        assert(plan_views(r@) =~= fade_plans(*a));
    }
    r
}

/// Every patch the feature applies: the timer, and the fades when asked.
pub fn patches(a: &Addresses, shorten_fades: bool) -> (r: Vec<PatchPlan>)
    ensures
        plan_views(r@) == if shorten_fades {
            timer_plans(*a) + fade_plans(*a)
        } else {
            timer_plans(*a)
        },
{
    let mut r = timer_patches(a);
    if shorten_fades {
        let mut fades = fade_patches(a);
        let ghost before = r@;
        let ghost more = fades@;
        r.append(&mut fades);
        assert(plan_views(r@) =~= plan_views(before) + plan_views(more));
    }
    r
}

/// Whether a patch may be written over the bytes found at its address.
pub fn applies(plan: &PatchPlan, found: &[u8]) -> (r: bool)
    ensures
        r == (found@ == plan.expected@),
{
    let mut i: usize = 0;
    if found.len() != plan.expected.len() {
        return false;
    }
    while i < found.len()
        invariant
            i <= found@.len(),
            found@.len() == plan.expected@.len(),
            forall|j: int| 0 <= j < i ==> found@[j] == plan.expected@[j],
        decreases found@.len() - i,
    {
        if found[i] != plan.expected[i] {
            return false;
        }
        i += 1;
    }
    assert(found@ =~= plan.expected@);
    true
}

/// Everything the feature changed, so it can all be put back.
pub struct Doors {
    patches: PatchSet,
}

impl Doors {
    pub closed spec fn applied(&self) -> Seq<Patch> {
        self.patches.applied()
    }

    /// The patches that took, in the order they were written.
    pub fn new(patches: Vec<Patch>) -> (r: Doors)
        ensures
            r.applied() == patches@,
    {
        Doors { patches: PatchSet::new(patches) }
    }

    pub fn len(&self) -> (r: usize)
        ensures
            r == self.applied().len(),
    {
        self.patches.len()
    }

    /// Hands back the patches to revert, the last written first, and forgets
    /// them.
    pub fn remove(&mut self) -> (r: Vec<Patch>)
        ensures
            r@ == old(self).applied().reverse(),
            final(self).applied() == Seq::<Patch>::empty(),
    {
        self.patches.remove()
    }
}

/// The patches the feature applies, as plain values.
pub open spec fn door_plans(a: Addresses, shorten_fades: bool) -> Seq<PlanView> {
    if shorten_fades {
        timer_plans(a) + fade_plans(a)
    } else {
        timer_plans(a)
    }
}

/// No patch changes the length of what it overwrites: every replacement
/// ends exactly where the instructions it replaces ended, so none leaves half
/// an instruction behind.
pub proof fn law_patches_keep_length(a: Addresses, shorten_fades: bool)
    ensures
        forall|k: int|
            0 <= k < door_plans(a, shorten_fades).len() ==> #[trigger] door_plans(
                a,
                shorten_fades,
            )[k].replacement.len() == door_plans(a, shorten_fades)[k].expected.len(),
{
    let t = timer_plans(a);
    let f = fade_plans(a);
    assert(brief_duration().len() == 14);
    assert(set_brief().len() == 7);
    assert(le_bytes(QUICK_FADE_BITS).len() == 4);
    assert forall|k: int|
        0 <= k < door_plans(a, shorten_fades).len() implies #[trigger] door_plans(
            a,
            shorten_fades,
        )[k].replacement.len() == door_plans(a, shorten_fades)[k].expected.len() by {
        if k < 4 {
            assert(door_plans(a, shorten_fades)[k] == t[k]);
        } else {
            assert(door_plans(a, shorten_fades)[k] == f[k - 4]);
        }
    }
}


/// The bits of the half-second fades, 0.5f.
pub const HALF_SECOND_BITS: u32 = 0x3F00_0000;

/// The bits of the final fade, 0.3f.
pub const THREE_TENTHS_BITS: u32 = 0x3E99_999A;

/// Each fade patch expects the float the supported build holds at its
/// address, little-endian: half a second for the three fades around the
/// door, three tenths for the final fade, and each is replaced by the quick
/// fade.
pub proof fn law_fades_expect_what_the_game_holds(a: Addresses)
    ensures
        fade_plans(a).len() == 4,
        fade_plans(a)[0].address == a.door_fade_screen_out,
        fade_plans(a)[1].address == a.door_fade_audio_out,
        fade_plans(a)[2].address == a.door_fade_in,
        fade_plans(a)[3].address == a.door_fade_final,
        forall|k: int| 0 <= k < 3 ==> #[trigger] fade_plans(a)[k].expected == le_bytes(HALF_SECOND_BITS),
        fade_plans(a)[3].expected == le_bytes(THREE_TENTHS_BITS),
        fade_plans(a)[3].expected != le_bytes(HALF_SECOND_BITS),
        forall|k: int| 0 <= k < 4 ==> #[trigger] fade_plans(a)[k].replacement == le_bytes(QUICK_FADE_BITS),
{
    assert(le_bytes(HALF_SECOND_BITS) =~= seq![0x00u8, 0x00, 0x00, 0x3F]);
    assert(le_bytes(THREE_TENTHS_BITS) =~= seq![0x9Au8, 0x99, 0x99, 0x3E]);
    assert(le_bytes(THREE_TENTHS_BITS)[0] != le_bytes(HALF_SECOND_BITS)[0]);
}

} // verus!
