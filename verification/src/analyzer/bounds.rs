//! Finds every site that indexes a fixed-size array with a runtime index.
//!
//! The game's array type asserts the index is in range, and the compiler
//! inlines that assert everywhere, leaving a recognisable shape:
//!
//! ```text
//! cmp  esi, 6                  ; index < capacity?
//! jb   short ok
//! push <message string>
//! push 50                      ; line number in the array header
//! push <file string>
//! call assert
//! ok:
//! ```
//!
//! Searching for that shape with a capacity of 6 finds the places that walk
//! or index a bag's item array. It also finds any other six-element array,
//! so each hit still needs a look.

use vstd::prelude::*;

use crate::analyzer::disasm::{
    decode, decode_spec, views, Line, LineView, MNEMONIC_ADD, MNEMONIC_COMPARE, MNEMONIC_INC, REGISTER_NONE,
};
use crate::analyzer::image::Image;
use crate::analyzer::xref::{group_by_function, grouped, Groups};
use crate::bytes::u32_bytes;

verus! {

/// `push imm32`, used to push the assert's file string.
pub const OP_PUSH_IMM32: u8 = 0x68;

/// `cmp r32, imm8` is `83 /7 ib`; the ModRM of a register operand is
/// `0xF8 | reg`.
pub const OP_COMPARE_R32_IMM8: u8 = 0x83;

pub const MODRM_COMPARE_REG_MIN: u8 = 0xF8;

/// How far back from the assert to look for the bound check.
pub const LOOKBACK: usize = 24;

/// How far back to search for the start of the enclosing function.
pub const MAX_FUNCTION_SEARCH: u64 = 0x2000;

/// `.rdata` address of the array header's file name.
pub const DEFAULT_ARRAY_ASSERT_STRING: u64 = 0x00CB_57D0;

/// Instructions decoded forward from a bound check when deciding whether it
/// sits inside a loop.
pub const LOOP_WINDOW: usize = 64;

#[derive(Debug, Clone, Copy)]
pub struct Site {
    /// Address of the `cmp reg, N` that guards the assert.
    pub check: u64,
}

/// Whether `cmp r32, capacity` starts at `j`.
pub open spec fn compare_at(bytes: Seq<u8>, j: int, capacity: u8) -> bool {
    bytes[j] == OP_COMPARE_R32_IMM8 && bytes[j + 1] >= MODRM_COMPARE_REG_MIN && bytes[j + 2] == capacity
}

/// The last `cmp r32, capacity` that starts in `[low, high)`.
pub open spec fn last_compare(bytes: Seq<u8>, low: int, high: int, capacity: u8) -> Option<int>
    decreases high - low,
{
    if high <= low {
        None
    } else if compare_at(bytes, high - 1, capacity) {
        Some(high - 1)
    } else {
        last_compare(bytes, low, high - 1, capacity)
    }
}

/// Whether the assert pushes the file string at `i`.
pub open spec fn push_at(bytes: Seq<u8>, i: int, needle: Seq<u8>) -> bool {
    bytes[i] == OP_PUSH_IMM32 && bytes.subrange(i + 1, i + 5) == needle
}

/// Where the walk back from an assert at `i` starts.
pub open spec fn lookback_floor(i: int) -> int {
    if i >= LOOKBACK {
        i - LOOKBACK
    } else {
        0
    }
}

/// The guarded checks of the asserts at offsets below `n`, in order.
pub open spec fn sites_below(bytes: Seq<u8>, base: u64, capacity: u8, needle: Seq<u8>, n: int) -> Seq<
    Site,
>
    decreases n,
{
    if n <= 0 {
        seq![]
    } else {
        let i = n - 1;
        let earlier = sites_below(bytes, base, capacity, needle, i);
        if push_at(bytes, i, needle) {
            match last_compare(bytes, lookback_floor(i), i, capacity) {
                Some(j) => earlier.push(Site { check: (base + j) as u64 }),
                None => earlier,
            }
        } else {
            earlier
        }
    }
}

/// The bound checks that `find` reports.
pub open spec fn find_spec(image: Image, capacity: u8, assert_string: u64) -> Seq<Site> {
    if image.bytes@.len() < 5 {
        seq![]
    } else {
        sites_below(
            image.bytes@,
            image.base,
            capacity,
            u32_bytes(assert_string as u32),
            image.bytes@.len() - 4,
        )
    }
}

fn last_compare_before(bytes: &Vec<u8>, low: usize, high: usize, capacity: u8) -> (r: Option<usize>)
    requires
        low <= high,
        high + 2 < bytes.len(),
    ensures
        r is None <==> last_compare(bytes@, low as int, high as int, capacity) is None,
        r matches Some(j) ==> last_compare(bytes@, low as int, high as int, capacity) == Some(
            j as int,
        ) && low <= j < high,
{
    let mut j = high;
    while j > low
        invariant
            low <= j <= high,
            high + 2 < bytes.len(),
            last_compare(bytes@, low as int, high as int, capacity) == last_compare(
                bytes@,
                low as int,
                j as int,
                capacity,
            ),
        decreases j,
    {
        let k = j - 1;
        if bytes[k] == OP_COMPARE_R32_IMM8 && bytes[k + 1] >= MODRM_COMPARE_REG_MIN && bytes[k + 2] == capacity {
            return Some(k);
        }
        j -= 1;
    }
    None
}

/// Finds bound checks against `capacity` that guard the array assert whose
/// file string lies at `assert_string`.
///
/// Scanning backwards over variable-length instructions cannot be exact, but
/// the check is three bytes and comes shortly before the assert.
pub fn find(image: &Image, capacity: u8, assert_string: u64) -> (r: Vec<Site>)
    requires
        image.wf(),
    ensures
        r@ == find_spec(*image, capacity, assert_string),
{
    let value = assert_string as u32;
    let needle: [u8; 4] = [
        (value % 256) as u8,
        ((value / 256) % 256) as u8,
        ((value / 65536) % 256) as u8,
        (value / 16777216) as u8,
    ];
    assert(needle@ =~= u32_bytes(value));
    let bytes = &image.bytes;
    let mut out: Vec<Site> = Vec::new();
    if bytes.len() < 5 {
        return out;
    }
    let n = bytes.len() - 4;
    let mut i: usize = 0;
    while i < n
        invariant
            image.wf(),
            bytes == &image.bytes,
            n + 4 == bytes.len(),
            n == bytes@.len() - 4,
            i <= n,
            needle@ == u32_bytes(value),
            value == assert_string as u32,
            out@ == sites_below(bytes@, image.base, capacity, needle@, i as int),
        decreases n - i,
    {
        let pushes = bytes[i] == OP_PUSH_IMM32 && bytes[i + 1] == needle[0] && bytes[i + 2]
            == needle[1] && bytes[i + 3] == needle[2] && bytes[i + 4] == needle[3];
        proof {
            let w = bytes@.subrange(i + 1, i + 5);
            if pushes {
                assert(w =~= needle@);
            } else if bytes@[i as int] == OP_PUSH_IMM32 && w == needle@ {
                assert(w[0] == needle@[0] && w[1] == needle@[1] && w[2] == needle@[2] && w[3]
                    == needle@[3]);
            }
            assert(pushes == push_at(bytes@, i as int, needle@));
        }
        if pushes {
            let start = if i >= LOOKBACK {
                i - LOOKBACK
            } else {
                0
            };
            assert(start == lookback_floor(i as int));
            let found = last_compare_before(bytes, start, i, capacity);
            match found {
                Some(j) => {
                    out.push(Site { check: image.base + j as u64 });
                },
                None => {},
            }
        }
        i += 1;
    }
    out
}

/// How the index reaching a bound check is produced.
#[derive(Debug, Clone, Copy, PartialEq, Eq, Structural)]
pub enum Access {
    /// The index register is advanced and control branches back: the code
    /// walks the array. Under a sliding window this only ever sees the
    /// visible slots.
    Iterates,
    /// The index is not advanced near the check: one slot, chosen elsewhere.
    /// A sliding window does not change what this reads.
    SingleSlot,
}

/// Scans the lines after a bound check on `index` for the two halves of an
/// iteration: the index being advanced, and a branch back to at or before
/// the check. A second check on the same register, once a backward branch
/// was seen, ends the scan: that is the next loop.
pub open spec fn loop_signs(
    lines: Seq<LineView>,
    index: u32,
    check: u64,
    base: u64,
    advances: bool,
    backward: bool,
) -> (bool, bool)
    decreases lines.len(),
{
    if lines.len() == 0 {
        (advances, backward)
    } else {
        let i = lines[0].instruction;
        let a = advances || ((i.mnemonic == MNEMONIC_INC || i.mnemonic == MNEMONIC_ADD)
            && i.op0_register == index);
        let t = i.near_branch_target;
        let b = backward || (t != 0 && t <= check && t >= base);
        if lines[0].va != check && i.mnemonic == MNEMONIC_COMPARE && i.op0_register == index && b {
            (a, b)
        } else {
            loop_signs(lines.skip(1), index, check, base, a, b)
        }
    }
}

/// How the check at the head of `lines` is reached.
pub open spec fn access_spec(lines: Seq<LineView>, check: u64, base: u64) -> Access {
    if lines.len() == 0 || lines[0].instruction.op0_register == REGISTER_NONE {
        Access::SingleSlot
    } else {
        let (a, b) = loop_signs(
            lines.skip(1),
            lines[0].instruction.op0_register,
            check,
            base,
            false,
            false,
        );
        if a && b {
            Access::Iterates
        } else {
            Access::SingleSlot
        }
    }
}

/// Decides, from the lines decoded at a bound check, whether it guards a
/// loop. Requiring both an advance of the index and a backward branch keeps
/// a plain `if (index < 6)` out.
pub fn access_in(lines: &Vec<Line>, check: u64, base: u64) -> (r: Access)
    ensures
        r == access_spec(views(lines@), check, base),
{
    let ghost v = views(lines@);
    if lines.len() == 0 {
        return Access::SingleSlot;
    }
    assert(v[0] == lines@[0]@);
    let index = lines[0].instruction.op0_register;
    if index == REGISTER_NONE {
        return Access::SingleSlot;
    }
    let mut advances = false;
    let mut backward = false;
    let mut stop = false;
    let mut k: usize = 1;
    assert(v.skip(1).skip(0) =~= v.skip(1));
    while k < lines.len() && !stop
        invariant
            v == views(lines@),
            1 <= k <= lines@.len(),
            index == v[0].instruction.op0_register,
            stop ==> loop_signs(v.skip(1), index, check, base, false, false) == (
                advances,
                backward,
            ),
            !stop ==> loop_signs(v.skip(1), index, check, base, false, false) == loop_signs(
                v.skip(k as int),
                index,
                check,
                base,
                advances,
                backward,
            ),
        decreases lines@.len() - k,
    {
        let i = &lines[k].instruction;
        assert(v.skip(k as int)[0] == lines@[k as int]@);
        assert(v.skip(k as int).skip(1) =~= v.skip(k + 1));
        if (i.mnemonic == MNEMONIC_INC || i.mnemonic == MNEMONIC_ADD) && i.op0_register == index {
            advances = true;
        }
        let target = i.near_branch_target;
        if target != 0 && target <= check && target >= base {
            backward = true;
        }
        if lines[k].va != check && i.mnemonic == MNEMONIC_COMPARE && i.op0_register == index
            && backward {
            stop = true;
        }
        k += 1;
    }
    proof {
        if !stop {
            assert(v.skip(k as int) =~= Seq::<LineView>::empty());
        }
    }
    if advances && backward {
        Access::Iterates
    } else {
        Access::SingleSlot
    }
}

/// How the check at `check` is reached, from the decode that `access_at`
/// looks at.
pub open spec fn access_of(image: Image, check: u64) -> Access {
    access_spec(decode_spec(image, check, LOOP_WINDOW as nat), check, image.base)
}

/// Decides whether the bound check at `check` guards a loop.
pub fn access_at(image: &Image, check: u64) -> (r: Access)
    requires
        image.wf(),
    ensures
        r == access_of(*image, check),
{
    let lines = decode(image, check, LOOP_WINDOW);
    access_in(&lines, check, image.base)
}

/// The addresses of the checks.
pub open spec fn checks_of(sites: Seq<Site>) -> Seq<u64> {
    sites.map_values(|s: Site| s.check)
}

/// The checks, in order, that guard a loop.
pub open spec fn iterating_of(image: Image, checks: Seq<u64>) -> Seq<u64>
    decreases checks.len(),
{
    if checks.len() == 0 {
        seq![]
    } else {
        let earlier = iterating_of(image, checks.drop_last());
        if access_of(image, checks.last()) == Access::Iterates {
            earlier.push(checks.last())
        } else {
            earlier
        }
    }
}

/// How many of the checks read a single slot.
pub open spec fn single_of(image: Image, checks: Seq<u64>) -> nat
    decreases checks.len(),
{
    if checks.len() == 0 {
        0
    } else {
        single_of(image, checks.drop_last()) + if access_of(image, checks.last())
            == Access::SingleSlot {
            1nat
        } else {
            0nat
        }
    }
}

/// The bound checks, grouped by function, with how each is reached.
pub struct BoundsReport {
    pub sites: Vec<Site>,
    pub groups: Groups,
    /// For each function of `groups`, its checks that guard a loop.
    pub iterating: Vec<Vec<u64>>,
    /// For each function of `groups`, how many of its checks read one slot.
    pub single: Vec<usize>,
}

/// Each function's checks of `r` are sorted by how they are reached.
pub open spec fn sorted_by_access(image: Image, r: BoundsReport) -> bool {
    &&& r.iterating@.len() == r.groups.starts@.len()
    &&& r.single@.len() == r.groups.starts@.len()
    &&& forall|k: int|
        0 <= k < r.groups.starts@.len() ==> (#[trigger] r.iterating@[k])@ == iterating_of(
            image,
            r.groups.sites@[k]@,
        ) && r.single@[k] == single_of(image, r.groups.sites@[k]@)
}

/// Sorts the checks of one function into those that iterate and a count of
/// the rest.
fn sort_checks(image: &Image, checks: &Vec<u64>) -> (r: (Vec<u64>, usize))
    requires
        image.wf(),
    ensures
        r.0@ == iterating_of(*image, checks@),
        r.1 == single_of(*image, checks@),
{
    let mut iterating: Vec<u64> = Vec::new();
    let mut single: usize = 0;
    let mut i: usize = 0;
    while i < checks.len()
        invariant
            image.wf(),
            i <= checks@.len(),
            iterating@ == iterating_of(*image, checks@.take(i as int)),
            single == single_of(*image, checks@.take(i as int)),
            single <= i,
        decreases checks@.len() - i,
    {
        proof {
            assert(checks@.take(i + 1).drop_last() =~= checks@.take(i as int));
        }
        match access_at(image, checks[i]) {
            Access::Iterates => iterating.push(checks[i]),
            Access::SingleSlot => single += 1,
        }
        i += 1;
    }
    assert(checks@.take(checks@.len() as int) =~= checks@);
    (iterating, single)
}

/// Finds the bound checks against `capacity`, groups them by function, and
/// tells, for each, whether it walks the array.
pub fn survey(image: &Image, capacity: u8, assert_string: u64) -> (r: BoundsReport)
    requires
        image.wf(),
    ensures
        r.sites@ == find_spec(*image, capacity, assert_string),
        grouped(*image, checks_of(r.sites@), MAX_FUNCTION_SEARCH, r.groups),
        sorted_by_access(*image, r),
{
    let sites = find(image, capacity, assert_string);
    let mut checks: Vec<u64> = Vec::new();
    let mut i: usize = 0;
    while i < sites.len()
        invariant
            i <= sites@.len(),
            checks@ == checks_of(sites@.take(i as int)),
        decreases sites@.len() - i,
    {
        checks.push(sites[i].check);
        i += 1;
        assert(checks@ =~= checks_of(sites@.take(i as int)));
    }
    assert(sites@.take(sites@.len() as int) =~= sites@);
    let groups = group_by_function(image, checks.as_slice(), MAX_FUNCTION_SEARCH);
    let mut iterating: Vec<Vec<u64>> = Vec::new();
    let mut single: Vec<usize> = Vec::new();
    let mut k: usize = 0;
    while k < groups.sites.len()
        invariant
            image.wf(),
            groups.starts@.len() == groups.sites@.len(),
            k <= groups.sites@.len(),
            iterating@.len() == k,
            single@.len() == k,
            forall|j: int|
                0 <= j < k ==> (#[trigger] iterating@[j])@ == iterating_of(
                    *image,
                    groups.sites@[j]@,
                ) && single@[j] == single_of(*image, groups.sites@[j]@),
        decreases groups.sites@.len() - k,
    {
        let (it, one) = sort_checks(image, &groups.sites[k]);
        let ghost before_it = iterating@;
        let ghost before_one = single@;
        iterating.push(it);
        single.push(one);
        proof {
            assert forall|j: int| 0 <= j < k + 1 implies (#[trigger] iterating@[j])@ == iterating_of(
                *image,
                groups.sites@[j]@,
            ) && single@[j] == single_of(*image, groups.sites@[j]@) by {
                if j < k {
                    assert(iterating@[j] == before_it[j]);
                    assert(single@[j] == before_one[j]);
                }
            }
        }
        k += 1;
    }
    let r = BoundsReport { sites, groups, iterating, single };
    assert(sorted_by_access(*image, r));
    r
}

} // verus!
