//! Classifies the functions that reach a bag accessor.
//!
//! The sliding window keeps the game's six-slot bag and swaps its contents as
//! the player scrolls. Code that reads one known slot is unaffected. Code that
//! scans the bag only ever sees the six entries in view, so "do I have the
//! key?" answers no while the key sits outside the window. Each function is
//! scored on the signals that a scan leaves behind.

use vstd::prelude::*;

use crate::analyzer::disasm::{
    decode, decode_spec, function, function_spec, small_ops, views, Insn, InsnView, Line, LineView,
    Operand, MNEMONIC_COMPARE, REGISTER_NONE,
};
use crate::analyzer::image::Image;
use crate::analyzer::xref::{code_refs, code_refs_spec, group_by_function, grouped, Groups, Xref};

verus! {

/// Slots the game allocates per bag.
pub const BAG_SLOTS: u64 = 6;

/// `Item` is 8 bytes, so the items array spans 6 * 8 = 0x30 bytes.
pub const ITEMS_ARRAY_BYTES: u64 = 0x30;

pub const ITEM_STRIDE: u32 = 8;

/// Offsets just after the items array. Code touching these assumes where
/// the array ends.
pub const OFFSET_PERSONAL_ITEM: u32 = 0x34;

pub const OFFSET_EQUIPPED_INDEX: u32 = 0x3C;

/// How far back to search for the start of the enclosing function.
pub const MAX_FUNCTION_SEARCH: u64 = 0x2000;

/// Instructions decoded after a call site when scoring it.
///
/// The accessor returns the bag pointer in `eax`, and compiled code uses a
/// returned pointer close to the call; scoring the whole function would count
/// every unrelated `+0x34` in it.
pub const CALL_SITE_WINDOW: usize = 48;

// Operand kinds, as iced-x86 numbers them.
pub const OP_KIND_IMMEDIATE8: u32 = 6;
pub const OP_KIND_IMMEDIATE8_2ND: u32 = 7;
pub const OP_KIND_IMMEDIATE16: u32 = 8;
pub const OP_KIND_IMMEDIATE32: u32 = 9;
pub const OP_KIND_IMMEDIATE8TO16: u32 = 11;
pub const OP_KIND_IMMEDIATE8TO32: u32 = 12;

#[derive(Clone, Copy, Debug, PartialEq, Eq, Structural)]
pub struct Signals {
    /// `cmp reg, 6` or `cmp reg, 5`: a loop bounded by the slot count.
    pub slot_count_compare: usize,
    /// Immediate `0x30`: the byte length of the items array.
    pub array_size_immediate: usize,
    /// Memory operand scaled by 8: indexing the items array by element.
    pub item_indexing: usize,
    /// Access at `+0x34`, the personal item.
    pub personal_item: usize,
    /// Access at `+0x3C`, the equipped index.
    pub equipped_index: usize,
    /// Backward branch: a loop of some kind.
    pub backward_branch: usize,
    pub instructions: usize,
}

/// No signal seen yet.
pub open spec fn no_signals() -> Signals {
    Signals {
        slot_count_compare: 0,
        array_size_immediate: 0,
        item_indexing: 0,
        personal_item: 0,
        equipped_index: 0,
        backward_branch: 0,
        instructions: 0,
    }
}

impl Default for Signals {
    fn default() -> (r: Signals)
        ensures
            r == no_signals(),
    {
        Signals {
            slot_count_compare: 0,
            array_size_immediate: 0,
            item_indexing: 0,
            personal_item: 0,
            equipped_index: 0,
            backward_branch: 0,
            instructions: 0,
        }
    }
}

impl Signals {
    pub open spec fn scans_bag_spec(&self) -> bool {
        (self.slot_count_compare > 0 && self.backward_branch > 0) || self.array_size_immediate > 0
            || (self.item_indexing > 0 && self.backward_branch > 0)
    }

    pub open spec fn assumes_layout_spec(&self) -> bool {
        self.personal_item > 0 || self.equipped_index > 0
    }

    /// Whether the function looks like it walks the whole bag.
    ///
    /// Deliberately generous: a false positive costs one manual read, a false
    /// negative ships a bug where an item silently stops being found.
    pub fn scans_bag(&self) -> (r: bool)
        ensures
            r == self.scans_bag_spec(),
    {
        (self.slot_count_compare > 0 && self.backward_branch > 0) || self.array_size_immediate > 0
            || (self.item_indexing > 0 && self.backward_branch > 0)
    }

    /// Whether it depends on where the items array ends.
    pub fn assumes_layout(&self) -> (r: bool)
        ensures
            r == self.assumes_layout_spec(),
    {
        self.personal_item > 0 || self.equipped_index > 0
    }

    pub open spec fn verdict_spec(&self) -> Seq<char> {
        if self.scans_bag_spec() && self.assumes_layout_spec() {
            "SCANS + LAYOUT"@
        } else if self.scans_bag_spec() {
            "SCANS"@
        } else if self.assumes_layout_spec() {
            "LAYOUT"@
        } else {
            "single slot"@
        }
    }

    /// The verdict, in words.
    pub fn verdict(&self) -> (r: &'static str)
        ensures
            r@ == self.verdict_spec(),
    {
        match (self.scans_bag(), self.assumes_layout()) {
            (true, true) => "SCANS + LAYOUT",
            (true, false) => "SCANS",
            (false, true) => "LAYOUT",
            (false, false) => "single slot",
        }
    }
}

/// Whether an operand kind is one of the immediates the scan looks at.
pub open spec fn immediate_kind(kind: Option<u32>) -> bool {
    match kind {
        Some(k) => k == OP_KIND_IMMEDIATE8 || k == OP_KIND_IMMEDIATE8_2ND || k == OP_KIND_IMMEDIATE16
            || k == OP_KIND_IMMEDIATE32 || k == OP_KIND_IMMEDIATE8TO16 || k == OP_KIND_IMMEDIATE8TO32,
        None => false,
    }
}

/// The value of an immediate operand; an operand with none reads as 0.
pub open spec fn immediate_value(op: Operand) -> u64 {
    match op.immediate {
        Some(v) => v,
        None => 0,
    }
}

/// How many immediate operands hold `a` or `b`.
pub open spec fn immediates_of(ops: Seq<Operand>, a: u64, b: u64) -> nat
    decreases ops.len(),
{
    if ops.len() == 0 {
        0
    } else {
        immediates_of(ops.drop_last(), a, b) + if immediate_kind(ops.last().kind) && (
        immediate_value(ops.last()) == a || immediate_value(ops.last()) == b) {
            1nat
        } else {
            0nat
        }
    }
}

/// Room in every count for `n` more.
pub open spec fn room(s: Signals, n: nat) -> bool {
    &&& s.slot_count_compare + n <= usize::MAX
    &&& s.array_size_immediate + n <= usize::MAX
    &&& s.item_indexing + n <= usize::MAX
    &&& s.personal_item + n <= usize::MAX
    &&& s.equipped_index + n <= usize::MAX
    &&& s.backward_branch + n <= usize::MAX
    &&& s.instructions + n <= usize::MAX
}

/// `s` after looking at the instruction `i`.
pub open spec fn inspected(s: Signals, i: InsnView) -> Signals {
    let memory = i.memory_base != REGISTER_NONE || i.memory_index != REGISTER_NONE;
    Signals {
        slot_count_compare: (s.slot_count_compare + if i.mnemonic == MNEMONIC_COMPARE {
            immediates_of(i.operands, BAG_SLOTS, (BAG_SLOTS - 1) as u64)
        } else {
            0
        }) as usize,
        array_size_immediate: (s.array_size_immediate + immediates_of(
            i.operands,
            ITEMS_ARRAY_BYTES,
            ITEMS_ARRAY_BYTES,
        )) as usize,
        item_indexing: (s.item_indexing + if memory && i.memory_index_scale == ITEM_STRIDE {
            1int
        } else {
            0
        }) as usize,
        personal_item: (s.personal_item + if memory && i.memory_displacement32
            == OFFSET_PERSONAL_ITEM {
            1int
        } else {
            0
        }) as usize,
        equipped_index: (s.equipped_index + if memory && i.memory_displacement32
            == OFFSET_EQUIPPED_INDEX {
            1int
        } else {
            0
        }) as usize,
        backward_branch: s.backward_branch,
        instructions: (s.instructions + 1) as usize,
    }
}

proof fn lemma_immediates_bound(ops: Seq<Operand>, a: u64, b: u64)
    ensures
        immediates_of(ops, a, b) <= ops.len(),
    decreases ops.len(),
{
    if ops.len() > 0 {
        lemma_immediates_bound(ops.drop_last(), a, b);
    }
}

fn is_immediate(kind: Option<u32>) -> (r: bool)
    ensures
        r == immediate_kind(kind),
{
    match kind {
        Some(k) => k == OP_KIND_IMMEDIATE8 || k == OP_KIND_IMMEDIATE8_2ND || k == OP_KIND_IMMEDIATE16
            || k == OP_KIND_IMMEDIATE32 || k == OP_KIND_IMMEDIATE8TO16 || k == OP_KIND_IMMEDIATE8TO32,
        None => false,
    }
}

/// Counts the signals one instruction gives.
pub fn inspect(instruction: &Insn, signals: &mut Signals)
    requires
        room(*old(signals), instruction.operands@.len() + 1),
    ensures
        *final(signals) == inspected(*old(signals), instruction@),
{
    signals.instructions += 1;
    let ops = &instruction.operands;
    let mut k: usize = 0;
    let ghost start = *signals;
    while k < ops.len()
        invariant
            k <= ops@.len(),
            room(start, ops@.len()),
            signals.slot_count_compare == start.slot_count_compare + if instruction.mnemonic
                == MNEMONIC_COMPARE {
                immediates_of(ops@.take(k as int), BAG_SLOTS, (BAG_SLOTS - 1) as u64)
            } else {
                0
            },
            signals.array_size_immediate == start.array_size_immediate + immediates_of(
                ops@.take(k as int),
                ITEMS_ARRAY_BYTES,
                ITEMS_ARRAY_BYTES,
            ),
            signals.item_indexing == start.item_indexing,
            signals.personal_item == start.personal_item,
            signals.equipped_index == start.equipped_index,
            signals.backward_branch == start.backward_branch,
            signals.instructions == start.instructions,
        decreases ops@.len() - k,
    {
        proof {
            assert(ops@.take(k + 1).drop_last() =~= ops@.take(k as int));
            lemma_immediates_bound(ops@.take(k as int), BAG_SLOTS, (BAG_SLOTS - 1) as u64);
            lemma_immediates_bound(ops@.take(k as int), ITEMS_ARRAY_BYTES, ITEMS_ARRAY_BYTES);
        }
        let op = ops[k];
        if is_immediate(op.kind) {
            let value: u64 = match op.immediate {
                Some(v) => v,
                None => 0,
            };
            if instruction.mnemonic == MNEMONIC_COMPARE && (value == BAG_SLOTS || value == BAG_SLOTS
                - 1) {
                signals.slot_count_compare += 1;
            }
            if value == ITEMS_ARRAY_BYTES {
                signals.array_size_immediate += 1;
            }
        }
        k += 1;
    }
    assert(ops@.take(ops@.len() as int) =~= ops@);
    let uses_memory = instruction.memory_base != REGISTER_NONE || instruction.memory_index
        != REGISTER_NONE;
    if uses_memory {
        if instruction.memory_index_scale == ITEM_STRIDE {
            signals.item_indexing += 1;
        }
        if instruction.memory_displacement32 == OFFSET_PERSONAL_ITEM {
            signals.personal_item += 1;
        } else if instruction.memory_displacement32 == OFFSET_EQUIPPED_INDEX {
            signals.equipped_index += 1;
        }
    }
}

/// `s` after looking at the branch of `line`.
pub open spec fn branch_counted(s: Signals, line: LineView) -> Signals {
    let t = line.instruction.near_branch_target;
    if t != 0 && t < line.va {
        Signals { backward_branch: (s.backward_branch + 1) as usize, ..s }
    } else {
        s
    }
}

/// Counts a branch backwards: a loop of some kind.
pub fn count_backward_branch(line: &Line, signals: &mut Signals)
    requires
        old(signals).backward_branch < usize::MAX,
    ensures
        *final(signals) == branch_counted(*old(signals), line@),
{
    let branch = line.instruction.near_branch_target;
    if branch != 0 && branch < line.va {
        signals.backward_branch += 1;
    }
}

/// `s` after looking at each of `lines`.
pub open spec fn scored(s: Signals, lines: Seq<LineView>) -> Signals
    decreases lines.len(),
{
    if lines.len() == 0 {
        s
    } else {
        branch_counted(inspected(scored(s, lines.drop_last()), lines.last().instruction), lines.last())
    }
}

/// Every count of `b` is at least that of `a`, and at most `n` more.
pub open spec fn grew_by_at_most(a: Signals, b: Signals, n: nat) -> bool {
    &&& a.slot_count_compare <= b.slot_count_compare <= a.slot_count_compare + n
    &&& a.array_size_immediate <= b.array_size_immediate <= a.array_size_immediate + n
    &&& a.item_indexing <= b.item_indexing <= a.item_indexing + n
    &&& a.personal_item <= b.personal_item <= a.personal_item + n
    &&& a.equipped_index <= b.equipped_index <= a.equipped_index + n
    &&& a.backward_branch <= b.backward_branch <= a.backward_branch + n
    &&& a.instructions <= b.instructions <= a.instructions + n
}

/// Counts the signals of each of `lines` into `signals`.
pub fn score_lines(lines: &[Line], signals: &mut Signals)
    requires
        room(*old(signals), 6 * lines@.len()),
        small_ops(views(lines@)),
    ensures
        *final(signals) == scored(*old(signals), views(lines@)),
        grew_by_at_most(*old(signals), *final(signals), 6 * lines@.len()),
{
    let ghost start = *signals;
    let mut k: usize = 0;
    while k < lines.len()
        invariant
            k <= lines@.len(),
            room(start, 6 * lines@.len()),
            small_ops(views(lines@)),
            *signals == scored(start, views(lines@.take(k as int))),
            grew_by_at_most(start, *signals, 6 * k as nat),
        decreases lines@.len() - k,
    {
        let ghost before = *signals;
        proof {
            assert(views(lines@)[k as int] == lines@[k as int]@);
            lemma_immediates_bound(lines@[k as int].instruction.operands@, BAG_SLOTS, (BAG_SLOTS - 1) as u64);
            lemma_immediates_bound(lines@[k as int].instruction.operands@, ITEMS_ARRAY_BYTES, ITEMS_ARRAY_BYTES);
            assert(6 * k + 6 <= 6 * lines@.len()) by (nonlinear_arith)
                requires
                    k < lines@.len(),
            ;
        }
        inspect(&lines[k].instruction, signals);
        count_backward_branch(&lines[k], signals);
        proof {
            assert(views(lines@.take(k + 1)) =~= views(lines@.take(k as int)).push(lines@[k as int]@));
            assert(views(lines@.take(k + 1)).drop_last() =~= views(lines@.take(k as int)));
        }
        k += 1;
    }
    assert(lines@.take(lines@.len() as int) =~= lines@);
}

/// The signals of the instructions following the call at `site`.
pub open spec fn site_lines(image: Image, site: u64, window: nat) -> Seq<LineView> {
    let lines = decode_spec(image, site, window);
    if lines.len() == 0 {
        lines
    } else {
        lines.skip(1)
    }
}

/// Scores the instructions following one call site, the call itself
/// skipped.
pub fn score(image: &Image, site: u64, window: usize, signals: &mut Signals)
    requires
        image.wf(),
        room(*old(signals), 6 * window as nat),
    ensures
        *final(signals) == scored(*old(signals), site_lines(*image, site, window as nat)),
        grew_by_at_most(*old(signals), *final(signals), 6 * window as nat),
{
    let lines = decode(image, site, window);
    if lines.len() == 0 {
        return;
    }
    let rest = vstd::slice::slice_subrange(lines.as_slice(), 1, lines.len());
    assert(views(rest@) =~= views(lines@).skip(1));
    assert(6 * rest@.len() <= 6 * window);
    score_lines(rest, signals);
}

/// The signals after the call sites `sites`, counted together from `s`.
pub open spec fn sites_scored(image: Image, s: Signals, sites: Seq<u64>) -> Signals
    decreases sites.len(),
{
    if sites.len() == 0 {
        s
    } else {
        scored(
            sites_scored(image, s, sites.drop_last()),
            site_lines(image, sites.last(), CALL_SITE_WINDOW as nat),
        )
    }
}

/// The call sites of a reference list.
pub open spec fn froms(refs: Seq<Xref>) -> Seq<u64> {
    refs.map_values(|r: Xref| r.from)
}

/// The functions that call an accessor, each scored.
pub struct ClassifyReport {
    pub refs: Vec<Xref>,
    pub groups: Groups,
    /// For each function of `groups`, the signals after its call sites.
    pub near: Vec<Signals>,
    /// For each function of `groups`, the signals over its whole body, for
    /// context only.
    pub whole: Vec<Signals>,
}

/// Each function of `r` is scored.
pub open spec fn scored_report(image: Image, r: ClassifyReport) -> bool {
    &&& r.near@.len() == r.groups.starts@.len()
    &&& r.whole@.len() == r.groups.starts@.len()
    &&& forall|k: int|
        0 <= k < r.groups.starts@.len() ==> #[trigger] r.near@[k] == sites_scored(
            image,
            no_signals(),
            r.groups.sites@[k]@,
        ) && r.whole@[k] == scored(no_signals(), function_spec(image, r.groups.starts@[k]))
}

fn score_sites(image: &Image, sites: &Vec<u64>) -> (r: Signals)
    requires
        image.wf(),
        sites@.len() * (6 * CALL_SITE_WINDOW) <= usize::MAX,
    ensures
        r == sites_scored(*image, no_signals(), sites@),
{
    let mut signals = Signals::default();
    let mut i: usize = 0;
    while i < sites.len()
        invariant
            image.wf(),
            i <= sites@.len(),
            sites@.len() * (6 * CALL_SITE_WINDOW) <= usize::MAX,
            signals == sites_scored(*image, no_signals(), sites@.take(i as int)),
            grew_by_at_most(no_signals(), signals, (i * (6 * CALL_SITE_WINDOW)) as nat),
        decreases sites@.len() - i,
    {
        proof {
            assert(sites@.take(i + 1).drop_last() =~= sites@.take(i as int));
            assert((i + 1) * (6 * CALL_SITE_WINDOW) <= sites@.len() * (6 * CALL_SITE_WINDOW))
                by (nonlinear_arith)
                requires
                    i < sites@.len(),
            ;
            assert((i + 1) * (6 * CALL_SITE_WINDOW) == i * (6 * CALL_SITE_WINDOW) + 6
                * CALL_SITE_WINDOW) by (nonlinear_arith);
        }
        score(image, sites[i], CALL_SITE_WINDOW, &mut signals);
        i += 1;
    }
    assert(sites@.take(sites@.len() as int) =~= sites@);
    signals
}

proof fn lemma_in_function_len(image: Image, sites: Seq<u64>, max_back: u64, f: Option<u64>)
    ensures
        crate::analyzer::xref::in_function(image, sites, max_back, f).len() <= sites.len(),
    decreases sites.len(),
{
    if sites.len() > 0 {
        lemma_in_function_len(image, sites.drop_last(), max_back, f);
    }
}

/// Scores every function that directly calls `target`: over the
/// instructions after each call site, and over its whole body.
pub fn survey(image: &Image, target: u64) -> (r: ClassifyReport)
    requires
        image.wf(),
        code_refs_spec(*image, target).len() * (6 * CALL_SITE_WINDOW) <= usize::MAX,
    ensures
        r.refs@ == code_refs_spec(*image, target),
        grouped(*image, froms(r.refs@), MAX_FUNCTION_SEARCH, r.groups),
        scored_report(*image, r),
{
    let refs = code_refs(image, target);
    let mut sites: Vec<u64> = Vec::new();
    let mut i: usize = 0;
    while i < refs.len()
        invariant
            i <= refs@.len(),
            sites@ == froms(refs@.take(i as int)),
        decreases refs@.len() - i,
    {
        sites.push(refs[i].from);
        i += 1;
        assert(sites@ =~= froms(refs@.take(i as int)));
    }
    assert(refs@.take(refs@.len() as int) =~= refs@);
    let groups = group_by_function(image, sites.as_slice(), MAX_FUNCTION_SEARCH);
    let mut near: Vec<Signals> = Vec::new();
    let mut whole: Vec<Signals> = Vec::new();
    let mut k: usize = 0;
    while k < groups.sites.len()
        invariant
            image.wf(),
            grouped(*image, sites@, MAX_FUNCTION_SEARCH, groups),
            sites@.len() * (6 * CALL_SITE_WINDOW) <= usize::MAX,
            k <= groups.sites@.len(),
            near@.len() == k,
            whole@.len() == k,
            forall|j: int|
                0 <= j < k ==> #[trigger] near@[j] == sites_scored(
                    *image,
                    no_signals(),
                    groups.sites@[j]@,
                ) && whole@[j] == scored(no_signals(), function_spec(*image, groups.starts@[j])),
        decreases groups.sites@.len() - k,
    {
        proof {
            lemma_in_function_len(*image, sites@, MAX_FUNCTION_SEARCH, Some(groups.starts@[k as int]));
            assert(groups.sites@[k as int]@.len() * (6 * CALL_SITE_WINDOW) <= sites@.len() * (6
                * CALL_SITE_WINDOW)) by (nonlinear_arith)
                requires
                    groups.sites@[k as int]@.len() <= sites@.len(),
            ;
        }
        let n = score_sites(image, &groups.sites[k]);
        let body = function(image, groups.starts[k]);
        let mut w = Signals::default();
        score_lines(body.as_slice(), &mut w);
        let ghost before_near = near@;
        let ghost before_whole = whole@;
        near.push(n);
        whole.push(w);
        proof {
            assert forall|j: int| 0 <= j < k + 1 implies #[trigger] near@[j] == sites_scored(
                *image,
                no_signals(),
                groups.sites@[j]@,
            ) && whole@[j] == scored(no_signals(), function_spec(*image, groups.starts@[j])) by {
                if j < k {
                    assert(near@[j] == before_near[j]);
                    assert(whole@[j] == before_whole[j]);
                }
            }
        }
        k += 1;
    }
    assert(groups.starts@.len() == groups.sites@.len());
    let r = ClassifyReport { refs, groups, near, whole };
    assert forall|j: int| 0 <= j < r.groups.starts@.len() implies #[trigger] r.near@[j] == sites_scored(
        *image,
        no_signals(),
        r.groups.sites@[j]@,
    ) && r.whole@[j] == scored(no_signals(), function_spec(*image, r.groups.starts@[j])) by {
        assert(r.near@[j] == near@[j]);
    }
    assert(scored_report(*image, r));
    r
}

} // verus!
