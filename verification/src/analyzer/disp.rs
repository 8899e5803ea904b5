//! Finds memory operands using a given displacement.
//!
//! Answers "how much code would have to change if this field moved". The
//! fields after a fixed-size array move when the array grows, and every access
//! to them is encoded with the old offset as a literal displacement. Unlike the
//! byte-pattern search this decodes, so it finds the offset in every
//! addressing form.

use vstd::prelude::*;

use crate::analyzer::disasm::{decode, decode_spec, views, LineView, REGISTER_NONE};
use crate::analyzer::image::Image;
use crate::analyzer::xref::{group_by_function, grouped, Groups};

verus! {

/// How far back to search for the start of the enclosing function.
pub const MAX_FUNCTION_SEARCH: u64 = 0x2000;

/// Instructions decoded per linear pass. A range is decoded straight through,
/// so it should start on a known instruction boundary, ideally a function
/// start.
pub const MAX_INSTRUCTIONS: usize = 200_000;

#[derive(Debug, Clone)]
pub struct Use {
    pub va: u64,
    pub text: String,
}

/// The uses among `lines` before the first line at or past `high`: memory
/// operands with a base register and displacement `displacement`. A
/// displacement with no base register is an absolute address, not a field.
pub open spec fn uses_in(lines: Seq<LineView>, displacement: u32, high: u64) -> Seq<(u64, Seq<char>)>
    decreases lines.len(),
{
    if lines.len() == 0 || lines[0].va >= high {
        seq![]
    } else {
        let i = lines[0].instruction;
        let rest = uses_in(lines.skip(1), displacement, high);
        if i.memory_base != REGISTER_NONE && i.memory_displacement32 == displacement {
            seq![(lines[0].va, lines[0].text)] + rest
        } else {
            rest
        }
    }
}

/// What `find` reports.
pub open spec fn find_spec(image: Image, displacement: u32, low: u64, high: u64) -> Seq<
    (u64, Seq<char>),
> {
    uses_in(decode_spec(image, low, MAX_INSTRUCTIONS as nat), displacement, high)
}

/// The uses as plain values.
pub open spec fn use_views(uses: Seq<Use>) -> Seq<(u64, Seq<char>)> {
    uses.map_values(|u: Use| (u.va, u.text@))
}

/// Finds the memory operands with displacement `displacement` in a linear
/// decode from `low` up to `high`.
pub fn find(image: &Image, displacement: u32, low: u64, high: u64) -> (r: Vec<Use>)
    requires
        image.wf(),
    ensures
        use_views(r@) == find_spec(*image, displacement, low, high),
{
    let lines = decode(image, low, MAX_INSTRUCTIONS);
    let ghost v = views(lines@);
    let mut out: Vec<Use> = Vec::new();
    let mut k: usize = 0;
    let mut stop = false;
    assert(v.skip(0) =~= v);
    while k < lines.len() && !stop
        invariant
            v == views(lines@),
            k <= lines@.len(),
            stop ==> uses_in(v, displacement, high) == use_views(out@),
            !stop ==> uses_in(v, displacement, high) == use_views(out@) + uses_in(
                v.skip(k as int),
                displacement,
                high,
            ),
        decreases lines@.len() - k,
    {
        let line = &lines[k];
        assert(v.skip(k as int)[0] == line@);
        assert(v.skip(k as int).skip(1) =~= v.skip(k + 1));
        if line.va >= high {
            stop = true;
            assert(use_views(out@) + Seq::<(u64, Seq<char>)>::empty() =~= use_views(out@));
        } else {
            let i = &line.instruction;
            if i.memory_base != REGISTER_NONE && i.memory_displacement32 == displacement {
                let ghost before = out@;
                out.push(Use { va: line.va, text: line.text.clone() });
                assert(use_views(out@) =~= use_views(before).push((line.va, line.text@)));
                assert(use_views(before) + (seq![(line.va, line.text@)] + uses_in(
                    v.skip(k + 1),
                    displacement,
                    high,
                )) =~= use_views(out@) + uses_in(v.skip(k + 1), displacement, high));
            }
        }
        k += 1;
    }
    proof {
        if !stop {
            assert(v.skip(k as int) =~= Seq::<LineView>::empty());
            assert(use_views(out@) + Seq::<(u64, Seq<char>)>::empty() =~= use_views(out@));
        }
    }
    out
}

/// The uses of a displacement, grouped by enclosing function.
pub struct DispReport {
    pub uses: Vec<Use>,
    /// The addresses of the uses, grouped.
    pub groups: Groups,
}

/// The addresses of the uses.
pub open spec fn use_addresses(uses: Seq<(u64, Seq<char>)>) -> Seq<u64> {
    uses.map_values(|u: (u64, Seq<char>)| u.0)
}

/// Finds the uses of `displacement` in `[low, high)` and groups them by
/// function.
pub fn survey(image: &Image, displacement: u32, low: u64, high: u64) -> (r: DispReport)
    requires
        image.wf(),
    ensures
        use_views(r.uses@) == find_spec(*image, displacement, low, high),
        grouped(
            *image,
            use_addresses(find_spec(*image, displacement, low, high)),
            MAX_FUNCTION_SEARCH,
            r.groups,
        ),
{
    let uses = find(image, displacement, low, high);
    let ghost found = find_spec(*image, displacement, low, high);
    let mut vas: Vec<u64> = Vec::new();
    let mut i: usize = 0;
    while i < uses.len()
        invariant
            i <= uses@.len(),
            use_views(uses@) == found,
            vas@ == use_addresses(found.take(i as int)),
        decreases uses@.len() - i,
    {
        assert(found[i as int] == (uses@[i as int].va, uses@[i as int].text@));
        vas.push(uses[i].va);
        i += 1;
        assert(vas@ =~= use_addresses(found.take(i as int)));
    }
    assert(found.take(found.len() as int) =~= found);
    let groups = group_by_function(image, vas.as_slice(), MAX_FUNCTION_SEARCH);
    DispReport { uses, groups }
}

} // verus!
