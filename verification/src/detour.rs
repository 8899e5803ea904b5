//! Redirecting a game function to one of ours.
//!
//! A detour writes a five-byte relative jump over the start of the target.
//! From then on, calling the game function lands in the replacement instead.
//! Only functions replaced outright are detoured: calling the original from
//! the replacement would need the overwritten instructions relocated.
//!
//! Writing to the game's code pages is done by the host; this module decides
//! what is written, and keeps the record of what was replaced.

use vstd::prelude::*;

use crate::bytes::{i32_bytes, le_i32, lemma_i32_round_trip};

verus! {

/// `jmp rel32`.
pub const OP_JMP_REL32: u8 = 0xE9;

/// Opcode plus the four displacement bytes.
pub const JUMP_LENGTH: usize = 5;

/// `nop`, used to fill out an instruction longer than the jump.
pub const OP_NOP: u8 = 0x90;

/// The displacement a jump at `from` needs to reach `to`: measured from the
/// end of the jump instruction, where the processor has advanced to by the
/// time it applies the offset.
pub open spec fn displacement(from: usize, to: usize) -> int {
    to - (from + JUMP_LENGTH)
}

pub open spec fn fits_i32(v: int) -> bool {
    i32::MIN <= v <= i32::MAX
}

/// The jump's bytes, when the displacement fits.
pub open spec fn jump_of(from: usize, to: usize) -> Seq<u8> {
    seq![OP_JMP_REL32] + i32_bytes(displacement(from, to) as i32)
}

/// Builds the bytes for a jump from `from` to `to`.
///
/// Returns `None` if the two addresses are further apart than a 32-bit signed
/// displacement can reach.
pub fn jump_bytes(from: usize, to: usize) -> (r: Option<[u8; JUMP_LENGTH]>)
    ensures
        match r {
            Some(bytes) => fits_i32(displacement(from, to)) && bytes@ == jump_of(from, to),
            None => !fits_i32(displacement(from, to)),
        },
{
    let next: i128 = from as i128 + JUMP_LENGTH as i128;
    let distance: i128 = to as i128 - next;
    if distance < i32::MIN as i128 || distance > i32::MAX as i128 {
        return None;
    }
    let d = distance as i32;
    let u = d as u32;
    let bytes: [u8; JUMP_LENGTH] = [
        OP_JMP_REL32,
        (u % 256) as u8,
        ((u / 256) % 256) as u8,
        ((u / 65536) % 256) as u8,
        (u / 16777216) as u8,
    ];
    assert(bytes@ =~= jump_of(from, to));
    Some(bytes)
}

/// `call rel32`.
pub const OP_CALL_REL32: u8 = 0xE8;

/// The call's bytes, when the displacement fits.
pub open spec fn call_of(from: usize, to: usize) -> Seq<u8> {
    seq![OP_CALL_REL32] + i32_bytes(displacement(from, to) as i32)
}

/// Builds the bytes for a call at `from` to `to`; `None` when out of a
/// 32-bit displacement's reach.
pub fn call_bytes(from: usize, to: usize) -> (r: Option<[u8; JUMP_LENGTH]>)
    ensures
        match r {
            Some(bytes) => fits_i32(displacement(from, to)) && bytes@ == call_of(from, to),
            None => !fits_i32(displacement(from, to)),
        },
{
    match jump_bytes(from, to) {
        None => None,
        Some(jump) => {
            let bytes: [u8; JUMP_LENGTH] = [OP_CALL_REL32, jump[1], jump[2], jump[3], jump[4]];
            assert(bytes@ =~= call_of(from, to));
            Some(bytes)
        },
    }
}

/// Where the call written at `at` as `code` goes, when `code` is one.
pub open spec fn call_destination(at: usize, code: Seq<u8>) -> Option<int> {
    if code.len() >= JUMP_LENGTH && code[0] == OP_CALL_REL32 {
        Some(at + JUMP_LENGTH + le_i32(code, 1))
    } else {
        None
    }
}

/// The address the `call rel32` found at `at` (its bytes `code`) calls;
/// `None` when it is not such a call or goes outside the address space.
pub fn call_target(at: usize, code: &[u8]) -> (r: Option<usize>)
    ensures
        r == match call_destination(at, code@) {
            Some(d) => if 0 <= d <= usize::MAX {
                Some(d as usize)
            } else {
                None
            },
            None => None,
        },
{
    if code.len() < JUMP_LENGTH || code[0] != OP_CALL_REL32 {
        return None;
    }
    let d = crate::bytes::read_i32(code, 1);
    let target: i128 = at as i128 + JUMP_LENGTH as i128 + d as i128;
    if target < 0 || target > usize::MAX as i128 {
        None
    } else {
        Some(target as usize)
    }
}

/// Why a detour was not written.
#[derive(Clone, Copy, Debug, PartialEq, Eq, Structural)]
pub enum DetourError {
    /// Fewer than five bytes are being replaced: no room for the jump.
    TooShort,
    /// The bytes at the target are not the ones expected: a different build,
    /// or another mod got there first.
    Mismatch,
    /// The replacement is out of a 32-bit jump's reach.
    OutOfRange,
}

/// What goes over `expected`: the jump, then `nop` for the rest, so no partial
/// instruction is left behind.
pub open spec fn patch_of(target: usize, replacement: usize, len: nat) -> Seq<u8> {
    jump_of(target, replacement) + Seq::new((len - JUMP_LENGTH) as nat, |_i: int| OP_NOP)
}

/// The bytes to write over `target` to send it to `replacement`, given what
/// the caller expected there and what was `found`.
///
/// The expected bytes state at the call site what the author believed was
/// there, and refuse the write when the belief is wrong.
pub fn plan_detour(target: usize, replacement: usize, expected: &[u8], found: &[u8]) -> (r: Result<
    Vec<u8>,
    DetourError,
>)
    ensures
        match r {
            Ok(bytes) => {
                &&& expected@.len() >= JUMP_LENGTH
                &&& found@ == expected@
                &&& fits_i32(displacement(target, replacement))
                &&& bytes@ == patch_of(target, replacement, expected@.len())
            },
            Err(DetourError::TooShort) => expected@.len() < JUMP_LENGTH,
            Err(DetourError::Mismatch) => expected@.len() >= JUMP_LENGTH && found@ != expected@,
            Err(DetourError::OutOfRange) => {
                &&& expected@.len() >= JUMP_LENGTH
                &&& found@ == expected@
                &&& !fits_i32(displacement(target, replacement))
            },
        },
{
    if expected.len() < JUMP_LENGTH {
        return Err(DetourError::TooShort);
    }
    if found.len() != expected.len() {
        assert(found@.len() != expected@.len());
        return Err(DetourError::Mismatch);
    }
    let mut i: usize = 0;
    while i < expected.len()
        invariant
            i <= expected@.len(),
            expected@.len() >= JUMP_LENGTH,
            found@.len() == expected@.len(),
            forall|j: int| 0 <= j < i ==> found@[j] == expected@[j],
        decreases expected@.len() - i,
    {
        if found[i] != expected[i] {
            assert(found@[i as int] != expected@[i as int]);
            return Err(DetourError::Mismatch);
        }
        i += 1;
    }
    assert(found@ =~= expected@);
    let jump = match jump_bytes(target, replacement) {
        Some(jump) => jump,
        None => {
            return Err(DetourError::OutOfRange);
        },
    };
    let mut bytes: Vec<u8> = Vec::new();
    let mut k: usize = 0;
    while k < expected.len()
        invariant
            k <= expected@.len(),
            expected@.len() >= JUMP_LENGTH,
            jump@ == jump_of(target, replacement),
            bytes@.len() == k,
            forall|j: int| 0 <= j < k ==> #[trigger] bytes@[j] == patch_of(target, replacement, expected@.len())[j],
        decreases expected@.len() - k,
    {
        if k < JUMP_LENGTH {
            bytes.push(jump[k]);
        } else {
            bytes.push(OP_NOP);
        }
        k += 1;
    }
    assert(bytes@ =~= patch_of(target, replacement, expected@.len()));
    Ok(bytes)
}

/// A write to the game's code, with the bytes it replaced, so it can be
/// undone.
pub struct Patch {
    address: usize,
    original: Vec<u8>,
}

impl Patch {
    pub closed spec fn spec_address(&self) -> usize {
        self.address
    }

    pub closed spec fn spec_original(&self) -> Seq<u8> {
        self.original@
    }

    /// The record of a write at `address` that replaced `original`. Nothing
    /// was written when `original` is empty.
    pub fn new(address: usize, original: Vec<u8>) -> (r: Option<Patch>)
        ensures
            match r {
                Some(p) => original@.len() > 0 && p.spec_address() == address && p.spec_original()
                    == original@,
                None => original@.len() == 0,
            },
    {
        if original.len() == 0 {
            return None;
        }
        Some(Patch { address, original })
    }

    pub fn address(&self) -> (r: usize)
        ensures
            r == self.spec_address(),
    {
        self.address
    }

    /// The bytes to put back.
    pub fn original(&self) -> (r: &[u8])
        ensures
            r@ == self.spec_original(),
    {
        self.original.as_slice()
    }
}

/// A game function redirected to a replacement.
pub struct Detour {
    name: &'static str,
    patch: Patch,
}

impl Detour {
    pub closed spec fn spec_name(&self) -> &'static str {
        self.name
    }

    pub closed spec fn spec_patch(&self) -> Patch {
        self.patch
    }

    pub fn new(name: &'static str, patch: Patch) -> (r: Detour)
        ensures
            r.spec_name() == name,
            r.spec_patch() == patch,
    {
        Detour { name, patch }
    }

    pub fn name(&self) -> (r: &'static str)
        ensures
            r == self.spec_name(),
    {
        self.name
    }

    pub fn patch(&self) -> (r: &Patch)
        ensures
            *r == self.spec_patch(),
    {
        &self.patch
    }
}

/// Everything patched into the game, in the order it was installed, so there
/// is always one place that can put it back.
pub struct Hooks {
    detours: Vec<Detour>,
}

impl Hooks {
    pub closed spec fn installed(&self) -> Seq<Detour> {
        self.detours@
    }

    pub fn new() -> (r: Hooks)
        ensures
            r.installed() == Seq::<Detour>::empty(),
    {
        Hooks { detours: Vec::new() }
    }

    /// Records a detour that took.
    pub fn record(&mut self, detour: Detour)
        ensures
            final(self).installed() == old(self).installed().push(detour),
    {
        self.detours.push(detour);
    }

    pub fn len(&self) -> (r: usize)
        ensures
            r == self.installed().len(),
    {
        self.detours.len()
    }

    pub fn is_empty(&self) -> (r: bool)
        ensures
            r == (self.installed().len() == 0),
    {
        self.detours.len() == 0
    }

    /// The detours in the order they must be removed: the last installed
    /// first.
    pub fn removal_order(&self) -> (r: Vec<&Detour>)
        ensures
            r@.len() == self.installed().len(),
            forall|k: int|
                0 <= k < r@.len() ==> *#[trigger] r@[k] == self.installed()[self.installed().len() - 1 - k],
    {
        let mut out: Vec<&Detour> = Vec::new();
        let mut k: usize = self.detours.len();
        while k > 0
            invariant
                k <= self.detours@.len(),
                out@.len() == self.detours@.len() - k,
                forall|j: int|
                    0 <= j < out@.len() ==> *#[trigger] out@[j] == self.detours@[self.detours@.len() - 1 - j],
            decreases k,
        {
            k -= 1;
            out.push(&self.detours[k]);
        }
        out
    }

    /// Forgets every detour, once the host has put their bytes back.
    pub fn clear(&mut self)
        ensures
            final(self).installed() == Seq::<Detour>::empty(),
    {
        self.detours.clear();
    }
}

/// A jump lands where it was aimed: the processor, at the end of the five
/// bytes, adds the displacement they hold and arrives at `to`.
pub proof fn law_jump_lands_on_target(from: usize, to: usize)
    requires
        fits_i32(displacement(from, to)),
    ensures
        jump_of(from, to).len() == JUMP_LENGTH,
        jump_of(from, to)[0] == OP_JMP_REL32,
        from + JUMP_LENGTH + le_i32(jump_of(from, to), 1) == to,
{
    let d = displacement(from, to) as i32;
    lemma_i32_round_trip(d, seq![], seq![OP_JMP_REL32]);
    assert(seq![OP_JMP_REL32] + i32_bytes(d) + seq![] =~= jump_of(from, to));
}

/// Patches written, in the order they were written, so that all of them can
/// be put back, the last first.
pub struct PatchSet {
    patches: Vec<Patch>,
}

impl PatchSet {
    pub closed spec fn applied(&self) -> Seq<Patch> {
        self.patches@
    }

    /// The patches that took, in the order they were written.
    pub fn new(patches: Vec<Patch>) -> (r: PatchSet)
        ensures
            r.applied() == patches@,
    {
        PatchSet { patches }
    }

    pub fn len(&self) -> (r: usize)
        ensures
            r == self.applied().len(),
    {
        self.patches.len()
    }

    /// Hands back the patches to revert, the last written first, and forgets
    /// them.
    pub fn remove(&mut self) -> (r: Vec<Patch>)
        ensures
            r@ == old(self).applied().reverse(),
            final(self).applied() == Seq::<Patch>::empty(),
    {
        let mut out: Vec<Patch> = Vec::new();
        let ghost all = self.patches@;
        while self.patches.len() > 0
            invariant
                all.reverse() == out@ + self.patches@.reverse(),
            decreases self.patches@.len(),
        {
            let ghost before = self.patches@;
            let p = self.patches.pop().unwrap();
            assert(before.reverse() =~= seq![p] + self.patches@.reverse());
            out.push(p);
        }
        assert(self.patches@.reverse() =~= Seq::<Patch>::empty());
        assert(out@ + Seq::<Patch>::empty() =~= out@);
        out
    }
}

} // verus!
