//! Cross-reference scanning.
//!
//! There is no symbol table, and linear disassembly of a large section drifts
//! out of alignment wherever data is embedded in code. So references are found
//! by byte pattern instead, to be confirmed by decoding at the candidate site.
//!
//! This finds direct calls and jumps. Indirect calls through a vtable or a
//! function pointer are invisible here.

use vstd::prelude::*;

use crate::analyzer::image::Image;
use crate::bytes::{le_i32, read_i32, u32_bytes};

verus! {

/// `call rel32`.
pub const OP_CALL_REL32: u8 = 0xE8;

/// `jmp rel32`. Shows up as a tail call.
pub const OP_JMP_REL32: u8 = 0xE9;

/// Length of a `call`/`jmp rel32`.
pub const REL32_INSTRUCTION_LEN: u64 = 5;

/// MSVC fills the gap between functions with this.
pub const INT3: u8 = 0xCC;

#[derive(Debug, Clone, Copy, PartialEq, Eq, Structural)]
pub enum RefKind {
    Call,
    Jump,
    /// The address appears as a literal 4-byte value, e.g. `mov eax, [addr]`
    /// or a pointer stored in a table.
    Data,
}

#[derive(Debug, Clone, Copy)]
pub struct Xref {
    pub from: u64,
    pub kind: RefKind,
}

/// Where the `rel32` at `i` leads: relative to the next instruction, modulo
/// 2^64.
pub open spec fn rel32_target(bytes: Seq<u8>, base: u64, i: int) -> u64 {
    ((base + i + REL32_INSTRUCTION_LEN + le_i32(bytes, i + 1)) % 0x1_0000_0000_0000_0000) as u64
}

/// The kind of a `call`/`jmp rel32` opcode.
pub open spec fn rel32_kind(opcode: u8) -> Option<RefKind> {
    if opcode == OP_CALL_REL32 {
        Some(RefKind::Call)
    } else if opcode == OP_JMP_REL32 {
        Some(RefKind::Jump)
    } else {
        None
    }
}

/// The direct calls and jumps to `target` that start before offset `n`, in
/// address order.
pub open spec fn code_refs_below(bytes: Seq<u8>, base: u64, target: u64, n: int) -> Seq<Xref>
    decreases n,
{
    if n <= 0 {
        seq![]
    } else {
        let i = n - 1;
        let earlier = code_refs_below(bytes, base, target, i);
        match rel32_kind(bytes[i]) {
            Some(kind) => if rel32_target(bytes, base, i) == target {
                earlier.push(Xref { from: (base + i) as u64, kind })
            } else {
                earlier
            },
            None => earlier,
        }
    }
}

/// Every direct call and jump to `target`, up to one whose five bytes end
/// the section.
pub open spec fn code_refs_spec(image: Image, target: u64) -> Seq<Xref> {
    if image.bytes@.len() < 5 {
        seq![]
    } else {
        code_refs_below(image.bytes@, image.base, target, image.bytes@.len() - 4)
    }
}

/// Finds every `call`/`jmp rel32` whose target is `target`.
///
/// A byte that happens to be 0xE8 inside data gives a false positive; the
/// caller is expected to look at each hit rather than trust the count.
pub fn code_refs(image: &Image, target: u64) -> (r: Vec<Xref>)
    requires
        image.wf(),
    ensures
        r@ == code_refs_spec(*image, target),
{
    let mut out: Vec<Xref> = Vec::new();
    let bytes = &image.bytes;
    if bytes.len() < 5 {
        return out;
    }
    let n = bytes.len() - 4;
    let mut i: usize = 0;
    while i < n
        invariant
            n == bytes@.len() - 4,
            bytes == &image.bytes,
            image.wf(),
            i <= n,
            out@ == code_refs_below(bytes@, image.base, target, i as int),
        decreases n - i,
    {
        let opcode = bytes[i];
        let kind = if opcode == OP_CALL_REL32 {
            Some(RefKind::Call)
        } else if opcode == OP_JMP_REL32 {
            Some(RefKind::Jump)
        } else {
            None
        };
        if let Some(kind) = kind {
            let displacement = read_i32(bytes.as_slice(), i + 1);
            let site = image.base + i as u64;
            let sum: i128 = (site + REL32_INSTRUCTION_LEN) as i128 + displacement as i128;
            let resolved: u64 = if sum < 0 {
                (sum + 0x1_0000_0000_0000_0000i128) as u64
            } else if sum > u64::MAX as i128 {
                (sum - 0x1_0000_0000_0000_0000i128) as u64
            } else {
                sum as u64
            };
            assert(resolved == rel32_target(bytes@, image.base, i as int));
            if resolved == target {
                out.push(Xref { from: site, kind });
            }
        }
        i += 1;
    }
    out
}

/// The offsets before `n` at which the four little-endian bytes of `value`
/// appear, as references from their addresses.
pub open spec fn data_refs_below(bytes: Seq<u8>, base: u64, value: u32, n: int) -> Seq<Xref>
    decreases n,
{
    if n <= 0 {
        seq![]
    } else {
        let i = n - 1;
        let earlier = data_refs_below(bytes, base, value, i);
        if bytes.subrange(i, i + 4) == u32_bytes(value) {
            earlier.push(Xref { from: (base + i) as u64, kind: RefKind::Data })
        } else {
            earlier
        }
    }
}

/// Every literal occurrence of the low 32 bits of `address`, up to four
/// bytes that end the section.
pub open spec fn data_refs_spec(image: Image, address: u64) -> Seq<Xref> {
    if image.bytes@.len() < 4 {
        seq![]
    } else {
        data_refs_below(image.bytes@, image.base, address as u32, image.bytes@.len() - 3)
    }
}

/// Finds every occurrence of `address` as a literal 4-byte value, at any
/// alignment, because x86 immediates are not aligned.
pub fn data_refs(image: &Image, address: u64) -> (r: Vec<Xref>)
    requires
        image.wf(),
    ensures
        r@ == data_refs_spec(*image, address),
{
    let value = address as u32;
    let needle: [u8; 4] = [
        (value % 256) as u8,
        ((value / 256) % 256) as u8,
        ((value / 65536) % 256) as u8,
        (value / 16777216) as u8,
    ];
    assert(needle@ =~= u32_bytes(value));
    let mut out: Vec<Xref> = Vec::new();
    let bytes = &image.bytes;
    if bytes.len() < 4 {
        return out;
    }
    let n = bytes.len() - 3;
    let mut i: usize = 0;
    while i < n
        invariant
            n == bytes@.len() - 3,
            n + 3 == bytes.len(),
            bytes == &image.bytes,
            image.wf(),
            i <= n,
            needle@ == u32_bytes(value),
            value == address as u32,
            out@ == data_refs_below(bytes@, image.base, value, i as int),
        decreases n - i,
    {
        let same = bytes[i] == needle[0] && bytes[i + 1] == needle[1] && bytes[i + 2] == needle[2]
            && bytes[i + 3] == needle[3];
        proof {
            let w = bytes@.subrange(i as int, i + 4);
            if same {
                assert(w =~= needle@);
            } else {
                if w == needle@ {
                    assert(w[0] == needle@[0] && w[1] == needle@[1] && w[2] == needle@[2] && w[3]
                        == needle@[3]);
                }
            }
        }
        if same {
            out.push(Xref { from: image.base + i as u64, kind: RefKind::Data });
        }
        i += 1;
    }
    out
}

/// Whether the four bytes before `va` are all padding.
pub open spec fn padding_before(image: Image, va: int) -> bool {
    let o = va - 4 - image.base;
    &&& image.holds(va - 4)
    &&& o + 4 <= image.bytes@.len()
    &&& image.bytes@[o] == INT3
    &&& image.bytes@[o + 1] == INT3
    &&& image.bytes@[o + 2] == INT3
    &&& image.bytes@[o + 3] == INT3
}

/// Walking down from `va` to just above `lowest`: the first address preceded
/// by four bytes of padding. The walk gives up where the four bytes before
/// the address leave the section.
pub open spec fn padding_walk(image: Image, va: int, lowest: int) -> Option<u64>
    decreases va - lowest,
{
    if va <= lowest || !image.holds(va - 4) {
        None
    } else if padding_before(image, va) {
        Some(va as u64)
    } else {
        padding_walk(image, va - 1, lowest)
    }
}

/// How far down the search for a function start may go.
pub open spec fn search_floor(image: Image, site: u64, max_back: u64) -> int {
    let down = if site >= max_back {
        site - max_back
    } else {
        0
    };
    if down > image.base {
        down
    } else {
        image.base as int
    }
}

/// The start of the function enclosing `site`, as `enclosing_function` finds it.
pub open spec fn enclosing_spec(image: Image, site: u64, max_back: u64) -> Option<u64> {
    padding_walk(image, site as int, search_floor(image, site, max_back))
}

/// Walks backwards from `site` to a plausible start of the enclosing function.
///
/// MSVC pads between functions with `int3`, so the first padding run before
/// the site is a good guess. `None` when no padding lies within `max_back`
/// bytes, which usually means the site is not really code.
pub fn enclosing_function(image: &Image, site: u64, max_back: u64) -> (r: Option<u64>)
    requires
        image.wf(),
    ensures
        r == enclosing_spec(*image, site, max_back),
{
    let down = site.saturating_sub(max_back);
    let lowest = if down > image.base {
        down
    } else {
        image.base
    };
    let mut va = site;
    while va > lowest
        invariant
            image.wf(),
            lowest == search_floor(*image, site, max_back),
            va <= site,
            padding_walk(*image, site as int, lowest as int) == padding_walk(
                *image,
                va as int,
                lowest as int,
            ),
        decreases va - lowest,
    {
        if va < 4 {
            return None;
        }
        let w = va - 4;
        if !image.contains(w) {
            return None;
        }
        let o = (w - image.base) as usize;
        let bytes = &image.bytes;
        if bytes.len() - o >= 4 && bytes[o] == INT3 && bytes[o + 1] == INT3 && bytes[o + 2] == INT3
            && bytes[o + 3] == INT3 {
            return Some(va);
        }
        va -= 1;
    }
    None
}

/// The sites, in order, whose enclosing function is `f` (`None`: those with
/// no identifiable one).
pub open spec fn in_function(image: Image, sites: Seq<u64>, max_back: u64, f: Option<u64>) -> Seq<
    u64,
>
    decreases sites.len(),
{
    if sites.len() == 0 {
        seq![]
    } else {
        let earlier = in_function(image, sites.drop_last(), max_back, f);
        if enclosing_spec(image, sites.last(), max_back) == f {
            earlier.push(sites.last())
        } else {
            earlier
        }
    }
}

/// Sites grouped by the function that encloses them.
pub struct Groups {
    /// Function starts, in ascending order.
    pub starts: Vec<u64>,
    /// The sites in each function, in the order they were given.
    pub sites: Vec<Vec<u64>>,
    /// The sites with no identifiable enclosing function.
    pub orphans: Vec<u64>,
}

/// `groups` is the grouping of `sites` by enclosing function.
pub open spec fn grouped(image: Image, sites: Seq<u64>, max_back: u64, groups: Groups) -> bool {
    &&& groups.starts@.len() == groups.sites@.len()
    &&& forall|j: int, k: int|
        0 <= j < k < groups.starts@.len() ==> groups.starts@[j] < groups.starts@[k]
    &&& forall|k: int|
        0 <= k < groups.starts@.len() ==> (#[trigger] groups.sites@[k])@ == in_function(
            image,
            sites,
            max_back,
            Some(groups.starts@[k]),
        ) && groups.sites@[k]@.len() > 0
    &&& forall|f: u64|
        in_function(image, sites, max_back, Some(f)).len() > 0 ==> #[trigger] groups.starts@.contains(
            f,
        )
    &&& groups.orphans@ == in_function(image, sites, max_back, None)
}

proof fn lemma_in_function_push(image: Image, sites: Seq<u64>, max_back: u64, s: u64, f: Option<u64>)
    ensures
        in_function(image, sites.push(s), max_back, f) == if enclosing_spec(image, s, max_back)
            == f {
            in_function(image, sites, max_back, f).push(s)
        } else {
            in_function(image, sites, max_back, f)
        },
{
    assert(sites.push(s).drop_last() =~= sites);
}

/// The first position in ascending `starts` whose value is not below `f`.
fn first_not_below(starts: &Vec<u64>, f: u64) -> (k: usize)
    ensures
        k <= starts@.len(),
        forall|j: int| 0 <= j < k ==> starts@[j] < f,
        k < starts@.len() ==> starts@[k as int] >= f,
{
    let mut k: usize = 0;
    while k < starts.len() && starts[k] < f
        invariant
            k <= starts@.len(),
            forall|j: int| 0 <= j < k ==> starts@[j] < f,
        decreases starts@.len() - k,
    {
        k += 1;
    }
    k
}

/// Groups `sites` by the function that encloses each, as
/// `enclosing_function` finds it.
pub fn group_by_function(image: &Image, sites: &[u64], max_back: u64) -> (r: Groups)
    requires
        image.wf(),
    ensures
        grouped(*image, sites@, max_back, r),
{
    let mut g = Groups { starts: Vec::new(), sites: Vec::new(), orphans: Vec::new() };
    let mut i: usize = 0;
    while i < sites.len()
        invariant
            image.wf(),
            i <= sites@.len(),
            grouped(*image, sites@.take(i as int), max_back, g),
        decreases sites@.len() - i,
    {
        let s = sites[i];
        let ghost before = sites@.take(i as int);
        proof {
            assert(sites@.take(i + 1) =~= before.push(s));
            assert forall|f: Option<u64>|
                #![trigger in_function(*image, sites@.take(i + 1), max_back, f)]
                in_function(*image, sites@.take(i + 1), max_back, f) == if enclosing_spec(
                    *image,
                    s,
                    max_back,
                ) == f {
                    in_function(*image, before, max_back, f).push(s)
                } else {
                    in_function(*image, before, max_back, f)
                } by {
                lemma_in_function_push(*image, before, max_back, s, f);
            }
        }
        match enclosing_function(image, s, max_back) {
            None => {
                g.orphans.push(s);
                proof {
                    assert forall|k: int| 0 <= k < g.starts@.len() implies (#[trigger] g.sites@[k])@
                        == in_function(*image, sites@.take(i + 1), max_back, Some(g.starts@[k])) by {
                        let _ = in_function(*image, sites@.take(i + 1), max_back, Some(g.starts@[k]));
                    }
                    assert forall|f: u64|
                        in_function(*image, sites@.take(i + 1), max_back, Some(f)).len()
                            > 0 implies #[trigger] g.starts@.contains(f) by {
                        let _ = in_function(*image, sites@.take(i + 1), max_back, Some(f));
                    }
                }
            },
            Some(f) => {
                let k = first_not_below(&g.starts, f);
                if k < g.starts.len() && g.starts[k] == f {
                    let mut members = g.sites.remove(k);
                    members.push(s);
                    g.sites.insert(k, members);
                    proof {
                        assert forall|j: int| 0 <= j < g.starts@.len() implies (#[trigger] g.sites@[j])@
                            == in_function(*image, sites@.take(i + 1), max_back, Some(g.starts@[j]))
                            && g.sites@[j]@.len() > 0 by {
                            let _ = in_function(*image, sites@.take(i + 1), max_back, Some(g.starts@[j]));
                            if j != k {
                                assert(g.starts@[j] != f);
                            }
                        }
                        assert forall|h: u64|
                            in_function(*image, sites@.take(i + 1), max_back, Some(h)).len()
                                > 0 implies #[trigger] g.starts@.contains(h) by {
                            let _ = in_function(*image, sites@.take(i + 1), max_back, Some(h));
                            if h == f {
                                assert(g.starts@[k as int] == h);
                            }
                        }
                        let _ = in_function(*image, sites@.take(i + 1), max_back, None);
                    }
                } else {
                    proof {
                        if in_function(*image, before, max_back, Some(f)).len() > 0 {
                            assert(g.starts@.contains(f));
                            let p = choose|p: int| 0 <= p < g.starts@.len() && g.starts@[p] == f;
                            if p < k {
                            } else if p > k {
                                assert(g.starts@[k as int] < g.starts@[p]);
                            }
                        }
                    }
                    let ghost old_starts = g.starts@;
                    let ghost old_sites = g.sites@;
                    let mut members: Vec<u64> = Vec::new();
                    members.push(s);
                    g.starts.insert(k, f);
                    g.sites.insert(k, members);
                    proof {
                        assert(in_function(*image, before, max_back, Some(f)) =~= Seq::<u64>::empty());
                        assert forall|a: int, b: int|
                            0 <= a < b < g.starts@.len() implies g.starts@[a] < g.starts@[b] by {
                            if b < k {
                            } else if a < k && b == k {
                            } else if a < k {
                                assert(old_starts[a] < old_starts[b - 1] || a == b - 1);
                            } else if a == k {
                                assert(old_starts[k as int] <= old_starts[b - 1] || k == b - 1);
                            } else {
                            }
                        }
                        assert forall|j: int| 0 <= j < g.starts@.len() implies (#[trigger] g.sites@[j])@
                            == in_function(*image, sites@.take(i + 1), max_back, Some(g.starts@[j]))
                            && g.sites@[j]@.len() > 0 by {
                            let _ = in_function(*image, sites@.take(i + 1), max_back, Some(g.starts@[j]));
                            if j < k {
                                assert(g.starts@[j] == old_starts[j] && g.sites@[j] == old_sites[j]);
                                assert(old_starts[j] != f);
                            } else if j > k {
                                assert(g.starts@[j] == old_starts[j - 1] && g.sites@[j] == old_sites[j - 1]);
                                assert(old_starts[j - 1] != f);
                            } else {
                                assert(members@ =~= seq![s]);
                            }
                        }
                        assert forall|h: u64|
                            in_function(*image, sites@.take(i + 1), max_back, Some(h)).len()
                                > 0 implies #[trigger] g.starts@.contains(h) by {
                            let _ = in_function(*image, sites@.take(i + 1), max_back, Some(h));
                            if h == f {
                                assert(g.starts@[k as int] == h);
                            } else {
                                assert(old_starts.contains(h));
                                let p = choose|p: int| 0 <= p < old_starts.len() && old_starts[p] == h;
                                if p < k {
                                    assert(g.starts@[p] == h);
                                } else {
                                    assert(g.starts@[p + 1] == h);
                                }
                            }
                        }
                        let _ = in_function(*image, sites@.take(i + 1), max_back, None);
                    }
                }
            },
        }
        i += 1;
    }
    assert(sites@.take(sites@.len() as int) =~= sites@);
    g
}

proof fn lemma_code_refs_below(bytes: Seq<u8>, base: u64, target: u64, n: int)
    requires
        0 <= n,
        n + 4 <= bytes.len(),
        base + n <= u64::MAX,
    ensures
        forall|k: int|
            0 <= k < code_refs_below(bytes, base, target, n).len() ==> {
                let x = #[trigger] code_refs_below(bytes, base, target, n)[k];
                let i = x.from - base;
                &&& 0 <= i < n
                &&& rel32_kind(bytes[i]) == Some(x.kind)
                &&& rel32_target(bytes, base, i) == target
            },
    decreases n,
{
    if n > 0 {
        lemma_code_refs_below(bytes, base, target, n - 1);
        let earlier = code_refs_below(bytes, base, target, n - 1);
        let all = code_refs_below(bytes, base, target, n);
        assert forall|k: int| 0 <= k < all.len() implies {
            let x = #[trigger] all[k];
            let i = x.from - base;
            &&& 0 <= i < n
            &&& rel32_kind(bytes[i]) == Some(x.kind)
            &&& rel32_target(bytes, base, i) == target
        } by {
            if k < earlier.len() {
                assert(all[k] == earlier[k]);
            }
        }
    }
}

/// Every reference found is a `call` or `jmp rel32` at its address whose
/// displacement leads to the target.
pub proof fn law_code_refs_lead_to_target(image: Image, target: u64)
    requires
        image.wf(),
    ensures
        forall|k: int|
            0 <= k < code_refs_spec(image, target).len() ==> {
                let x = #[trigger] code_refs_spec(image, target)[k];
                let i = x.from - image.base;
                &&& 0 <= i && i + 5 <= image.bytes@.len()
                &&& rel32_kind(image.bytes@[i]) == Some(x.kind)
                &&& rel32_target(image.bytes@, image.base, i) == target
            },
{
    if image.bytes@.len() >= 5 {
        lemma_code_refs_below(image.bytes@, image.base, target, image.bytes@.len() - 4);
    }
}

proof fn lemma_padding_walk(image: Image, va: int, lowest: int)
    requires
        va <= u64::MAX,
    ensures
        padding_walk(image, va, lowest) matches Some(f) ==> lowest < f <= va && padding_before(
            image,
            f as int,
        ),
    decreases va - lowest,
{
    if va > lowest && image.holds(va - 4) && !padding_before(image, va) {
        lemma_padding_walk(image, va - 1, lowest);
    }
    if va > lowest && image.holds(va - 4) && padding_before(image, va) {
        assert(padding_walk(image, va, lowest) == Some(va as u64));
        assert((va as u64) as int == va);
    }
}

/// A function start found for a site lies at or before it, within the
/// search, and right after four bytes of `int3` padding.
pub proof fn law_function_start_follows_padding(image: Image, site: u64, max_back: u64)
    ensures
        enclosing_spec(image, site, max_back) matches Some(f) ==> search_floor(image, site, max_back)
            < f <= site && padding_before(image, f as int),
{
    lemma_padding_walk(image, site as int, search_floor(image, site, max_back));
}

} // verus!
