//! Putting the item box on the typewriter prompt.
//!
//! The typewriter is a script opcode handled across several frames. The first
//! frame asks whether the player has an ink ribbon and shows one of two
//! messages; only the sub-state that the "record data?" message leaves reaches
//! the code that reads which choice was made. So:
//!
//! 1. Both message branches record whether there was a ribbon, and both leave
//!    the asking sub-state: the second prompt starts asking.
//! 2. The comparison of the choice becomes a call, which decides here.
//! 3. The call that opens the save screen becomes a call that, when the box
//!    was chosen, turns the save screen's phase into the inventory's.
//! 4. The three sites that build a message archive's path get the language
//!    name swapped for one naming this mod's own copy.
//!
//! With a ribbon the prompt is yes / no / use: one saves, two declines, three
//! opens the box. Without one it asks about the box alone, so one opens it.
//! Whether there was a ribbon is recorded on the first frame rather than
//! asked again later, because by then the answer could have changed.
//!
//! This module keeps the prompt's state and plans the patches; the host
//! writes them and runs the trampolines that call in here.

use vstd::prelude::*;

use crate::bytes::u32_bytes;
use crate::detour::{
    call_bytes, call_destination, call_of, call_target, displacement, fits_i32, jump_bytes, jump_of,
    patch_of, Patch, PatchSet, JUMP_LENGTH, OP_NOP,
};
use crate::doors::{PatchPlan, PlanView};
use crate::game::Addresses;

verus! {

/// The choice that declines, in both prompts.
pub const CHOICE_NO: i32 = 2;

/// The choice that opens the box when a ribbon made a third one possible.
pub const CHOICE_USE: i32 = 3;

/// The choice that opens it when there was nothing else to ask.
pub const CHOICE_YES: i32 = 1;

/// `mov dword ptr [edi+0x10], 2.0f`: the sub-state that reaches the choice.
pub const SET_ASKING: [u8; 7] = [0xC7, 0x47, 0x10, 0x00, 0x00, 0x00, 0x40];

/// The same instruction with `0.0f`, which is what the no-ribbon branch had.
pub const SET_SILENT: [u8; 7] = [0xC7, 0x47, 0x10, 0x00, 0x00, 0x00, 0x00];

/// `cmp dword ptr [esp+0x60], 1`.
pub const COMPARE_CHOICE: [u8; 5] = [0x83, 0x7C, 0x24, 0x60, 0x01];

/// `push imm32`, the instruction replaced at the three message sites.
pub const PUSH_IMM32: u8 = 0x68;

/// The language names this mod ships an archive for.
pub const REDIRECTED: [&'static str; 8] = [
    "chS_inv",
    "chT_inv",
    "eng_inv",
    "fre_inv",
    "ger_inv",
    "ita_inv",
    "jpn_inv",
    "spa_inv",
];

/// Length of a language name as the game passes it.
pub const NAME: usize = 3;

/// What the prompt remembers between the frames it spans.
pub struct Prompt {
    had_ribbon: bool,
    open_wanted: bool,
}

/// Whether `choice` asks for the box, given whether there was a ribbon.
pub open spec fn wants_box(had_ribbon: bool, choice: i32) -> bool {
    if had_ribbon {
        choice == CHOICE_USE
    } else {
        choice == CHOICE_YES
    }
}

impl Prompt {
    pub closed spec fn had_ribbon_of(&self) -> bool {
        self.had_ribbon
    }

    pub closed spec fn open_wanted_of(&self) -> bool {
        self.open_wanted
    }

    pub fn new() -> (r: Prompt)
        ensures
            !r.had_ribbon_of(),
            !r.open_wanted_of(),
    {
        Prompt { had_ribbon: false, open_wanted: false }
    }

    /// The prompt is shown; `had_ribbon` is the game's answer, non-zero for
    /// yes. Anything wanted from an earlier prompt is forgotten.
    pub fn note_ribbon(&mut self, had_ribbon: i32)
        ensures
            final(self).had_ribbon_of() == (had_ribbon != 0),
            !final(self).open_wanted_of(),
    {
        self.had_ribbon = had_ribbon != 0;
        self.open_wanted = false;
    }

    /// Stands in for the comparison of the choice: gives one to stop (the
    /// player declined) and zero to carry on. Saving and opening the box run
    /// through the same call afterwards, and which one happens is recorded
    /// here.
    pub fn decide_choice(&mut self, choice: i32) -> (r: i32)
        ensures
            final(self).had_ribbon_of() == old(self).had_ribbon_of(),
            choice == CHOICE_NO ==> r == 1 && final(self).open_wanted_of() == old(self).open_wanted_of(),
            choice != CHOICE_NO ==> r == 0 && final(self).open_wanted_of() == wants_box(
                old(self).had_ribbon_of(),
                choice,
            ),
    {
        if choice == CHOICE_NO {
            return 1;
        }
        self.open_wanted = if self.had_ribbon {
            choice == CHOICE_USE
        } else {
            choice == CHOICE_YES
        };
        0
    }

    /// The screen is about to open: whether it is for the box, which turns
    /// the save screen into the inventory. Asked once per choice.
    pub fn opening_box(&mut self) -> (r: bool)
        ensures
            r == old(self).open_wanted_of(),
            !final(self).open_wanted_of(),
            final(self).had_ribbon_of() == old(self).had_ribbon_of(),
    {
        let r = self.open_wanted;
        self.open_wanted = false;
        r
    }
}

/// Whether the first three characters of `name` are `asked`.
pub open spec fn names(name: Seq<char>, asked: Seq<u8>) -> bool {
    &&& asked.len() == NAME
    &&& name.len() >= NAME
    &&& forall|k: int| 0 <= k < NAME ==> #[trigger] asked[k] == name[k] as u8
}

/// The first of the redirected names that `asked` begins, from `from`.
pub open spec fn redirect_from(asked: Seq<u8>, from: int) -> Option<int>
    decreases 8 - from,
{
    if from < 0 || from >= 8 {
        None
    } else if names(REDIRECTED@[from]@, asked) {
        Some(from)
    } else {
        redirect_from(asked, from + 1)
    }
}

/// The mod's name for the language the game asked for, by its three bytes
/// `asked`; `None` for a language it has no archive for. The host then checks
/// that the archive is there before handing the name over: one that is gone
/// would leave the game with no messages at all.
pub fn redirect_for(asked: &[u8]) -> (r: Option<&'static str>)
    ensures
        r == match redirect_from(asked@, 0) {
            Some(i) => Some(REDIRECTED@[i]),
            None => None,
        },
{
    if asked.len() != NAME {
        assert(redirect_from(asked@, 0) is None) by {
            reveal_with_fuel(redirect_from, 9);
        }
        return None;
    }
    let mut i: usize = 0;
    while i < 8
        invariant
            i <= 8,
            asked@.len() == NAME,
            redirect_from(asked@, 0) == redirect_from(asked@, i as int),
        decreases 8 - i,
    {
        let name = REDIRECTED[i];
        if spells_prefix(name, asked) {
            return Some(name);
        }
        i += 1;
    }
    None
}

/// Whether `name` begins with the three bytes `asked`.
fn spells_prefix(name: &str, asked: &[u8]) -> (r: bool)
    requires
        asked@.len() == NAME,
    ensures
        r == names(name@, asked@),
{
    let chars = crate::text::chars_of(name);
    if chars.len() < NAME {
        return false;
    }
    let mut k: usize = 0;
    while k < NAME
        invariant
            k <= NAME,
            chars@ == name@,
            chars@.len() >= NAME,
            asked@.len() == NAME,
            forall|j: int| 0 <= j < k ==> asked@[j] == chars@[j] as u8,
        decreases NAME - k,
    {
        if asked[k] != chars[k] as u8 {
            return false;
        }
        k += 1;
    }
    true
}

/// Addresses of the host's trampolines.
#[derive(Clone, Copy, Debug)]
pub struct PromptHandlers {
    pub had_ribbon: usize,
    pub no_ribbon: usize,
    pub choice: usize,
    pub open_screen: usize,
    /// One per message site.
    pub message: [usize; 3],
}

/// A jump over `expected` at `at` to `handler`, when it reaches.
pub open spec fn jump_view(what: Seq<char>, at: usize, expected: Seq<u8>, handler: usize) -> Option<
    PlanView,
> {
    if fits_i32(displacement(at, handler)) {
        Some(
            PlanView {
                what,
                address: at,
                expected,
                replacement: patch_of(at, handler, expected.len()),
            },
        )
    } else {
        None
    }
}

/// A call in place of the five bytes `expected` at `at`, when it reaches.
pub open spec fn call_view(what: Seq<char>, at: usize, expected: Seq<u8>, handler: usize) -> Option<
    PlanView,
> {
    if fits_i32(displacement(at, handler)) {
        Some(PlanView { what, address: at, expected, replacement: call_of(at, handler) })
    } else {
        None
    }
}

pub open spec fn opt_view(p: Option<PatchPlan>) -> Option<PlanView> {
    match p {
        Some(plan) => Some(plan@),
        None => None,
    }
}

/// Whether the call found at the open-screen site goes where it should: it
/// is where the trampoline hands control back, so it is read rather than
/// assumed.
pub open spec fn opens_as_expected(a: Addresses, found: Seq<u8>) -> bool {
    call_destination(a.typewriter_open_screen, found) == Some(a.set_room_phase as int)
}

/// The prompt's four patches, each `None` when it cannot be planned.
pub open spec fn prompt_views(a: Addresses, h: PromptHandlers, found: Seq<u8>) -> Seq<Option<PlanView>> {
    seq![
        jump_view("prompt with a ribbon"@, a.typewriter_has_ribbon, SET_ASKING@, h.had_ribbon),
        jump_view("prompt without a ribbon"@, a.typewriter_no_ribbon, SET_SILENT@, h.no_ribbon),
        call_view("the choice made"@, a.typewriter_choice, COMPARE_CHOICE@, h.choice),
        if opens_as_expected(a, found) && fits_i32(
            displacement(a.typewriter_open_screen, a.set_room_phase),
        ) {
            call_view(
                "opening the screen"@,
                a.typewriter_open_screen,
                call_of(a.typewriter_open_screen, a.set_room_phase),
                h.open_screen,
            )
        } else {
            None
        },
    ]
}

/// What the message sites hold: `push` of the format string's address.
pub open spec fn push_format(a: Addresses) -> Seq<u8> {
    seq![PUSH_IMM32] + u32_bytes(a.message_format as u32)
}

/// The three message redirections.
pub open spec fn message_views(a: Addresses, h: PromptHandlers) -> Seq<Option<PlanView>> {
    Seq::new(
        3,
        |i: int| jump_view("message language"@, a.message_language@[i], push_format(a), h.message@[i]),
    )
}

pub(crate) fn copy_bytes(src: &[u8]) -> (r: Vec<u8>)
    ensures
        r@ == src@,
{
    let mut out: Vec<u8> = Vec::new();
    let mut i: usize = 0;
    while i < src.len()
        invariant
            i <= src@.len(),
            out@ == src@.take(i as int),
        decreases src@.len() - i,
    {
        out.push(src[i]);
        i += 1;
        assert(out@ =~= src@.take(i as int));
    }
    assert(src@.take(src@.len() as int) =~= src@);
    out
}

/// A jump over `expected` at `at` to `handler`, nops after it.
pub(crate) fn jump_plan(what: &'static str, at: usize, expected: &[u8], handler: usize) -> (r: Option<PatchPlan>)
    requires
        expected@.len() >= JUMP_LENGTH,
    ensures
        opt_view(r) == jump_view(what@, at, expected@, handler),
{
    let jump = match jump_bytes(at, handler) {
        Some(j) => j,
        None => {
            return None;
        },
    };
    let mut replacement: Vec<u8> = Vec::new();
    let mut k: usize = 0;
    while k < expected.len()
        invariant
            k <= expected@.len(),
            expected@.len() >= JUMP_LENGTH,
            jump@ == jump_of(at, handler),
            replacement@.len() == k,
            forall|j: int| 0 <= j < k ==> #[trigger] replacement@[j] == patch_of(at, handler, expected@.len())[j],
        decreases expected@.len() - k,
    {
        if k < JUMP_LENGTH {
            replacement.push(jump[k]);
        } else {
            replacement.push(OP_NOP);
        }
        k += 1;
    }
    assert(replacement@ =~= patch_of(at, handler, expected@.len()));
    Some(PatchPlan { what, address: at, expected: copy_bytes(expected), replacement })
}

/// A call in place of the five bytes `expected` at `at`.
pub(crate) fn call_plan(what: &'static str, at: usize, expected: &[u8], handler: usize) -> (r: Option<PatchPlan>)
    ensures
        opt_view(r) == call_view(what@, at, expected@, handler),
{
    match call_bytes(at, handler) {
        None => None,
        Some(call) => Some(
            PatchPlan { what, address: at, expected: copy_bytes(expected), replacement: copy_bytes(&call) },
        ),
    }
}

/// Plans the prompt's patches, `open_screen_found` being the five bytes at
/// the open-screen site. Each entry is `None` when it cannot be planned: the
/// handler out of reach, or, for the open-screen call, the call there not
/// going where expected. The rest still apply.
pub fn prompt_patches(a: &Addresses, h: &PromptHandlers, open_screen_found: &[u8]) -> (r: Vec<
    Option<PatchPlan>,
>)
    ensures
        r@.map_values(|p: Option<PatchPlan>| opt_view(p)) == prompt_views(*a, *h, open_screen_found@),
{
    let asking = SET_ASKING;
    let silent = SET_SILENT;
    let compare = COMPARE_CHOICE;
    let first = jump_plan("prompt with a ribbon", a.typewriter_has_ribbon, &asking, h.had_ribbon);
    let second = jump_plan("prompt without a ribbon", a.typewriter_no_ribbon, &silent, h.no_ribbon);
    let third = call_plan("the choice made", a.typewriter_choice, &compare, h.choice);
    let fourth = match call_target(a.typewriter_open_screen, open_screen_found) {
        Some(target) if target == a.set_room_phase => match call_bytes(
            a.typewriter_open_screen,
            a.set_room_phase,
        ) {
            Some(expected) => call_plan(
                "opening the screen",
                a.typewriter_open_screen,
                &expected,
                h.open_screen,
            ),
            None => None,
        },
        _ => None,
    };
    let r = vec![first, second, third, fourth];
    assert(r@.map_values(|p: Option<PatchPlan>| opt_view(p)) =~= prompt_views(
        *a,
        *h,
        open_screen_found@,
    ));
    r
}

/// Plans the three message redirections.
pub fn message_patches(a: &Addresses, h: &PromptHandlers) -> (r: Vec<Option<PatchPlan>>)
    ensures
        r@.map_values(|p: Option<PatchPlan>| opt_view(p)) == message_views(*a, *h),
{
    let format = a.message_format as u32;
    let expected: [u8; 5] = [
        PUSH_IMM32,
        (format % 256) as u8,
        ((format / 256) % 256) as u8,
        ((format / 65536) % 256) as u8,
        (format / 16777216) as u8,
    ];
    assert(expected@ =~= push_format(*a));
    let mut r: Vec<Option<PatchPlan>> = Vec::new();
    let mut i: usize = 0;
    while i < 3
        invariant
            i <= 3,
            expected@ == push_format(*a),
            r@.len() == i,
            forall|j: int| 0 <= j < i ==> #[trigger] opt_view(r@[j]) == message_views(*a, *h)[j],
        decreases 3 - i,
    {
        r.push(jump_plan("message language", a.message_language[i], &expected, h.message[i]));
        i += 1;
    }
    assert(r@.map_values(|p: Option<PatchPlan>| opt_view(p)) =~= message_views(*a, *h));
    r
}

/// Everything the prompt feature changed, so it can all be put back.
pub struct Typewriter {
    patches: PatchSet,
}

impl Typewriter {
    pub closed spec fn applied(&self) -> Seq<Patch> {
        self.patches.applied()
    }

    /// The patches that took, in the order they were written.
    pub fn new(patches: Vec<Patch>) -> (r: Typewriter)
        ensures
            r.applied() == patches@,
    {
        Typewriter { patches: PatchSet::new(patches) }
    }

    pub fn len(&self) -> (r: usize)
        ensures
            r == self.applied().len(),
    {
        self.patches.len()
    }

    /// Hands back the patches to revert, the last written first, and forgets
    /// them.
    pub fn remove(&mut self) -> (r: Vec<Patch>)
        ensures
            r@ == old(self).applied().reverse(),
            final(self).applied() == Seq::<Patch>::empty(),
    {
        self.patches.remove()
    }
}

} // verus!
