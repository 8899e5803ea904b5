//! Disassembly helpers built on iced-x86.
//!
//! Decoding stays with iced-x86; each fact the analysis reads of a decoded
//! instruction comes through one small call below and is kept as a plain
//! value in an [`Insn`]. Mnemonics, registers and operand kinds keep the
//! numbers iced-x86 gives them.

use vstd::prelude::*;
use vstd::slice::{slice_subrange, slice_to_vec};

use iced_x86::{Decoder, DecoderOptions, Formatter, IntelFormatter};

use crate::analyzer::image::Image;

verus! {

/// 32-bit code.
pub const BITNESS: u32 = 32;

/// Ceiling for `function`, so a bad start address cannot run away.
pub const MAX_FUNCTION_INSTRUCTIONS: usize = 8192;

/// Ceiling on how far `extent` searches for the padding that ends a function.
pub const MAX_FUNCTION_BYTES: usize = 0x4000;

/// MSVC fills the gap between functions with this.
pub const INT3: u8 = 0xCC;

/// Consecutive `int3` bytes that count as padding rather than a real
/// instruction. Three is enough to be unambiguous in compiled code.
pub const PADDING_RUN: usize = 3;

/// `Register::None`.
pub const REGISTER_NONE: u32 = 0;

// Mnemonics, as iced-x86 numbers them.
pub const MNEMONIC_ADD: u16 = 7;
pub const MNEMONIC_COMPARE: u16 = 93;
pub const MNEMONIC_INC: u16 = 279;
pub const MNEMONIC_JA: u16 = 297;
pub const MNEMONIC_JAE: u16 = 298;
pub const MNEMONIC_JB: u16 = 299;
pub const MNEMONIC_JBE: u16 = 300;
pub const MNEMONIC_JCXZ: u16 = 301;
pub const MNEMONIC_JE: u16 = 302;
pub const MNEMONIC_JECXZ: u16 = 303;
pub const MNEMONIC_JG: u16 = 304;
pub const MNEMONIC_JGE: u16 = 305;
pub const MNEMONIC_JL: u16 = 306;
pub const MNEMONIC_JLE: u16 = 307;
pub const MNEMONIC_JMP: u16 = 308;
pub const MNEMONIC_JNE: u16 = 310;
pub const MNEMONIC_JNO: u16 = 311;
pub const MNEMONIC_JNP: u16 = 312;
pub const MNEMONIC_JNS: u16 = 313;
pub const MNEMONIC_JO: u16 = 314;
pub const MNEMONIC_JP: u16 = 315;
pub const MNEMONIC_JS: u16 = 317;
pub const MNEMONIC_RET: u16 = 662;
pub const MNEMONIC_RETF: u16 = 663;

/// Length of the instruction that iced-x86 decodes from the start of `code`
/// at `ip`.
pub uninterp spec fn insn_len(code: Seq<u8>, ip: u64) -> nat;

/// Its mnemonic.
pub uninterp spec fn insn_mnemonic(code: Seq<u8>, ip: u64) -> u16;

/// Its first operand's register (`REGISTER_NONE` when that operand is none).
pub uninterp spec fn insn_op0_register(code: Seq<u8>, ip: u64) -> u32;

/// Its near branch target, 0 when it has none.
pub uninterp spec fn insn_branch_target(code: Seq<u8>, ip: u64) -> u64;

/// Its number of operands.
pub uninterp spec fn insn_op_count(code: Seq<u8>, ip: u64) -> u32;

/// The kind of one of its operands, when that operand exists.
pub uninterp spec fn insn_op_kind(code: Seq<u8>, ip: u64, operand: u32) -> Option<u32>;

/// The immediate value of one of its operands, when that operand is one.
pub uninterp spec fn insn_immediate(code: Seq<u8>, ip: u64, operand: u32) -> Option<u64>;

/// Its memory operand's base register.
pub uninterp spec fn insn_memory_base(code: Seq<u8>, ip: u64) -> u32;

/// Its memory operand's index register.
pub uninterp spec fn insn_memory_index(code: Seq<u8>, ip: u64) -> u32;

/// Its memory operand's index scale.
pub uninterp spec fn insn_memory_scale(code: Seq<u8>, ip: u64) -> u32;

/// Its memory operand's displacement, low 32 bits.
pub uninterp spec fn insn_displacement(code: Seq<u8>, ip: u64) -> u32;

/// Its Intel-syntax text, with `0x`-prefixed upper-case hexadecimal and a
/// space after each operand separator.
pub uninterp spec fn insn_text(code: Seq<u8>, ip: u64) -> Seq<char>;

/// Length of the instruction iced-x86 decodes from `code` at `ip`
/// (`Decoder::decode`, `Instruction::len`). The decoder consumes at least one
/// byte and never reads past the end of the input.
#[verifier::external_body]
fn decoded_len(code: &[u8], ip: u64) -> (r: usize)
    requires
        code@.len() > 0,
    ensures
        r == insn_len(code@, ip),
        1 <= r <= code@.len(),
{
    Decoder::with_ip(BITNESS, code, ip, DecoderOptions::NONE).decode().len()
}

/// The decoded instruction's mnemonic (`Instruction::mnemonic`).
#[verifier::external_body]
fn decoded_mnemonic(code: &[u8], ip: u64) -> (r: u16)
    ensures
        r == insn_mnemonic(code@, ip),
{
    Decoder::with_ip(BITNESS, code, ip, DecoderOptions::NONE).decode().mnemonic() as u16
}

/// The decoded instruction's first register operand
/// (`Instruction::op0_register`).
#[verifier::external_body]
fn decoded_op0_register(code: &[u8], ip: u64) -> (r: u32)
    ensures
        r == insn_op0_register(code@, ip),
{
    Decoder::with_ip(BITNESS, code, ip, DecoderOptions::NONE).decode().op0_register() as u32
}

/// The decoded instruction's near branch target
/// (`Instruction::near_branch_target`).
#[verifier::external_body]
fn decoded_branch_target(code: &[u8], ip: u64) -> (r: u64)
    ensures
        r == insn_branch_target(code@, ip),
{
    Decoder::with_ip(BITNESS, code, ip, DecoderOptions::NONE).decode().near_branch_target()
}

/// The decoded instruction's operand count (`Instruction::op_count`), which
/// iced-x86's operand-count table keeps at five or fewer.
#[verifier::external_body]
fn decoded_op_count(code: &[u8], ip: u64) -> (r: u32)
    ensures
        r == insn_op_count(code@, ip),
        r <= 5,
{
    Decoder::with_ip(BITNESS, code, ip, DecoderOptions::NONE).decode().op_count()
}

/// The kind of an operand of the decoded instruction
/// (`Instruction::try_op_kind`), `None` where it refuses the operand.
#[verifier::external_body]
fn decoded_op_kind(code: &[u8], ip: u64, operand: u32) -> (r: Option<u32>)
    ensures
        r == insn_op_kind(code@, ip, operand),
{
    let i = Decoder::with_ip(BITNESS, code, ip, DecoderOptions::NONE).decode();
    i.try_op_kind(operand).ok().map(|k| k as u32)
}

/// The immediate of an operand of the decoded instruction
/// (`Instruction::try_immediate`), `None` where the operand is none.
#[verifier::external_body]
fn decoded_immediate(code: &[u8], ip: u64, operand: u32) -> (r: Option<u64>)
    ensures
        r == insn_immediate(code@, ip, operand),
{
    Decoder::with_ip(BITNESS, code, ip, DecoderOptions::NONE).decode().try_immediate(operand).ok()
}

/// The decoded instruction's memory base register (`Instruction::memory_base`).
#[verifier::external_body]
fn decoded_memory_base(code: &[u8], ip: u64) -> (r: u32)
    ensures
        r == insn_memory_base(code@, ip),
{
    Decoder::with_ip(BITNESS, code, ip, DecoderOptions::NONE).decode().memory_base() as u32
}

/// The decoded instruction's memory index register
/// (`Instruction::memory_index`).
#[verifier::external_body]
fn decoded_memory_index(code: &[u8], ip: u64) -> (r: u32)
    ensures
        r == insn_memory_index(code@, ip),
{
    Decoder::with_ip(BITNESS, code, ip, DecoderOptions::NONE).decode().memory_index() as u32
}

/// The decoded instruction's index scale (`Instruction::memory_index_scale`).
#[verifier::external_body]
fn decoded_memory_scale(code: &[u8], ip: u64) -> (r: u32)
    ensures
        r == insn_memory_scale(code@, ip),
{
    Decoder::with_ip(BITNESS, code, ip, DecoderOptions::NONE).decode().memory_index_scale()
}

/// The decoded instruction's displacement
/// (`Instruction::memory_displacement32`).
#[verifier::external_body]
fn decoded_displacement(code: &[u8], ip: u64) -> (r: u32)
    ensures
        r == insn_displacement(code@, ip),
{
    Decoder::with_ip(BITNESS, code, ip, DecoderOptions::NONE).decode().memory_displacement32()
}

/// The decoded instruction in Intel syntax (`IntelFormatter::format`).
#[verifier::external_body]
fn decoded_text(code: &[u8], ip: u64) -> (r: String)
    ensures
        r@ == insn_text(code@, ip),
{
    let mut f = IntelFormatter::new();
    f.options_mut().set_hex_prefix("0x");
    f.options_mut().set_hex_suffix("");
    f.options_mut().set_uppercase_hex(true);
    f.options_mut().set_space_after_operand_separator(true);
    let mut text = String::new();
    f.format(&Decoder::with_ip(BITNESS, code, ip, DecoderOptions::NONE).decode(), &mut text);
    text
}

/// One operand: its kind, and its value when it is an immediate.
#[derive(Clone, Copy, Debug)]
pub struct Operand {
    pub kind: Option<u32>,
    pub immediate: Option<u64>,
}

/// What the analysis reads of a decoded instruction.
#[derive(Clone, Debug)]
pub struct Insn {
    pub mnemonic: u16,
    pub op0_register: u32,
    pub near_branch_target: u64,
    pub operands: Vec<Operand>,
    pub memory_base: u32,
    pub memory_index: u32,
    pub memory_index_scale: u32,
    pub memory_displacement32: u32,
}

/// A decoded instruction at its address.
#[derive(Clone, Debug)]
pub struct Line {
    pub va: u64,
    pub bytes: Vec<u8>,
    pub text: String,
    pub instruction: Insn,
}

/// What an [`Insn`] holds, as plain values.
pub struct InsnView {
    pub mnemonic: u16,
    pub op0_register: u32,
    pub near_branch_target: u64,
    pub operands: Seq<Operand>,
    pub memory_base: u32,
    pub memory_index: u32,
    pub memory_index_scale: u32,
    pub memory_displacement32: u32,
}

/// What a [`Line`] holds, as plain values.
pub struct LineView {
    pub va: u64,
    pub bytes: Seq<u8>,
    pub text: Seq<char>,
    pub instruction: InsnView,
}

impl View for Insn {
    type V = InsnView;

    open spec fn view(&self) -> InsnView {
        InsnView {
            mnemonic: self.mnemonic,
            op0_register: self.op0_register,
            near_branch_target: self.near_branch_target,
            operands: self.operands@,
            memory_base: self.memory_base,
            memory_index: self.memory_index,
            memory_index_scale: self.memory_index_scale,
            memory_displacement32: self.memory_displacement32,
        }
    }
}

impl View for Line {
    type V = LineView;

    open spec fn view(&self) -> LineView {
        LineView { va: self.va, bytes: self.bytes@, text: self.text@, instruction: self.instruction@ }
    }
}

/// The views of `lines`.
pub open spec fn views(lines: Seq<Line>) -> Seq<LineView> {
    lines.map_values(|l: Line| l@)
}

/// No instruction of `lines` has more than five operands.
pub open spec fn small_ops(lines: Seq<LineView>) -> bool {
    forall|k: int| 0 <= k < lines.len() ==> (#[trigger] lines[k]).instruction.operands.len() <= 5
}

/// The instruction iced-x86 decodes from the start of `code` at `ip`.
pub open spec fn insn_at(code: Seq<u8>, ip: u64) -> InsnView {
    InsnView {
        mnemonic: insn_mnemonic(code, ip),
        op0_register: insn_op0_register(code, ip),
        near_branch_target: insn_branch_target(code, ip),
        operands: Seq::new(
            insn_op_count(code, ip) as nat,
            |k: int|
                Operand {
                    kind: insn_op_kind(code, ip, k as u32),
                    immediate: insn_immediate(code, ip, k as u32),
                },
        ),
        memory_base: insn_memory_base(code, ip),
        memory_index: insn_memory_index(code, ip),
        memory_index_scale: insn_memory_scale(code, ip),
        memory_displacement32: insn_displacement(code, ip),
    }
}

/// The line decoded from the start of `code` at `ip`.
pub open spec fn line_at(code: Seq<u8>, ip: u64) -> LineView {
    LineView {
        va: ip,
        bytes: code.take(insn_len(code, ip) as int),
        text: insn_text(code, ip),
        instruction: insn_at(code, ip),
    }
}

/// Decodes the instruction at the start of `code`, which sits at `ip`.
pub fn decode_line(code: &[u8], ip: u64) -> (r: Line)
    requires
        code@.len() > 0,
    ensures
        r@ == line_at(code@, ip),
        r.instruction.operands@.len() <= 5,
        r.bytes@.len() == insn_len(code@, ip),
        1 <= r.bytes@.len() <= code@.len(),
{
    let len = decoded_len(code, ip);
    let count = decoded_op_count(code, ip);
    let mut operands: Vec<Operand> = Vec::new();
    let mut k: u32 = 0;
    while k < count
        invariant
            k <= count,
            count == insn_op_count(code@, ip),
            operands@ == insn_at(code@, ip).operands.take(k as int),
        decreases count - k,
    {
        let kind = decoded_op_kind(code, ip, k);
        let immediate = decoded_immediate(code, ip, k);
        operands.push(Operand { kind, immediate });
        k += 1;
        assert(operands@ =~= insn_at(code@, ip).operands.take(k as int));
    }
    assert(insn_at(code@, ip).operands.take(count as int) =~= insn_at(code@, ip).operands);
    let instruction = Insn {
        mnemonic: decoded_mnemonic(code, ip),
        op0_register: decoded_op0_register(code, ip),
        near_branch_target: decoded_branch_target(code, ip),
        operands,
        memory_base: decoded_memory_base(code, ip),
        memory_index: decoded_memory_index(code, ip),
        memory_index_scale: decoded_memory_scale(code, ip),
        memory_displacement32: decoded_displacement(code, ip),
    };
    let bytes = slice_to_vec(slice_subrange(code, 0, len));
    assert(bytes@ =~= code@.take(len as int));
    Line { va: ip, bytes, text: decoded_text(code, ip), instruction }
}

/// The offsets, within `code` that starts at `va`, of the instructions that
/// a linear decode from offset `at` meets: at most `count` of them, up to the
/// end of `code`.
pub open spec fn starts(code: Seq<u8>, va: u64, at: nat, count: nat) -> Seq<nat>
    decreases count,
{
    if count == 0 || at >= code.len() {
        seq![]
    } else {
        seq![at] + starts(
            code,
            va,
            at + insn_len(code.skip(at as int), (va + at) as u64),
            (count - 1) as nat,
        )
    }
}

/// The lines of `code`, which starts at `va`, at the offsets `at`.
pub open spec fn lines_of(code: Seq<u8>, va: u64, at: Seq<nat>) -> Seq<LineView> {
    at.map_values(|o: nat| line_at(code.skip(o as int), (va + o) as u64))
}

/// The bytes of the section from `va` on.
pub open spec fn code_from(image: Image, va: u64) -> Seq<u8> {
    image.bytes@.skip(va - image.base)
}

/// The linear decode of up to `count` instructions from `va`.
pub open spec fn decode_spec(image: Image, va: u64, count: nat) -> Seq<LineView> {
    if image.holds(va as int) {
        let code = code_from(image, va);
        lines_of(code, va, starts(code, va, 0, count))
    } else {
        seq![]
    }
}

/// Decodes `count` instructions starting at `va`, fewer where the section
/// ends first.
pub fn decode(image: &Image, va: u64, count: usize) -> (r: Vec<Line>)
    requires
        image.wf(),
    ensures
        views(r@) == decode_spec(*image, va, count as nat),
        r@.len() <= count,
        small_ops(views(r@)),
{
    let bytes = match image.from(va) {
        Some(b) => b,
        None => {
            assert(views(Seq::<Line>::empty()) =~= Seq::<LineView>::empty());
            return Vec::new();
        },
    };
    let ghost code = bytes@;
    let ghost all = starts(code, va, 0, count as nat);
    let mut out: Vec<Line> = Vec::new();
    let mut at: usize = 0;
    let ghost mut done: Seq<nat> = seq![];
    while out.len() < count && at < bytes.len()
        invariant
            image.wf(),
            image.holds(va as int),
            code == bytes@,
            code == code_from(*image, va),
            va + code.len() <= u64::MAX,
            at <= code.len(),
            out@.len() <= count,
            all == done + starts(code, va, at as nat, (count - out@.len()) as nat),
            views(out@) == lines_of(code, va, done),
            small_ops(views(out@)),
        decreases count - out@.len(),
    {
        let rest = slice_subrange(bytes, at, bytes.len());
        assert(rest@ =~= code.skip(at as int));
        let line = decode_line(rest, va + at as u64);
        let len = line.bytes.len();
        assert(len == insn_len(code.skip(at as int), (va + at) as u64));
        proof {
            let c = (count - out@.len()) as nat;
            assert(starts(code, va, at as nat, c) == seq![at as nat] + starts(
                code,
                va,
                (at + len) as nat,
                (c - 1) as nat,
            ));
            assert(done + starts(code, va, at as nat, c) =~= done.push(at as nat) + starts(
                code,
                va,
                (at + len) as nat,
                (c - 1) as nat,
            ));
        }
        let ghost before = out@;
        out.push(line);
        proof {
            done = done.push(at as nat);
            assert(views(out@) =~= views(before).push(line@));
            assert(lines_of(code, va, done) =~= lines_of(code, va, done.drop_last()).push(
                line_at(code.skip(at as int), (va + at) as u64),
            ));
            assert(done.drop_last() =~= done.take(done.len() - 1));
        }
        at = at + len;
    }
    proof {
        assert(done + starts(code, va, at as nat, (count - out@.len()) as nat) =~= done);
    }
    out
}

/// Whether three bytes of padding start at `p`.
pub open spec fn padding_at(code: Seq<u8>, p: int) -> bool {
    code[p] == INT3 && code[p + 1] == INT3 && code[p + 2] == INT3
}

/// The first padding run that starts at `p` or later and ends before `limit`.
pub open spec fn first_padding(code: Seq<u8>, p: int, limit: int) -> Option<int>
    decreases limit - p,
{
    if p + 3 > limit {
        None
    } else if padding_at(code, p) {
        Some(p)
    } else {
        first_padding(code, p + 1, limit)
    }
}

/// How far `extent` looks from `va`.
pub open spec fn extent_limit(image: Image, va: u64) -> int {
    let n = code_from(image, va).len();
    if MAX_FUNCTION_BYTES < n {
        MAX_FUNCTION_BYTES as int
    } else {
        n as int
    }
}

/// Where the function starting at `va` ends: the first padding run within
/// `MAX_FUNCTION_BYTES`.
pub open spec fn extent_spec(image: Image, va: u64) -> Option<u64> {
    if !image.holds(va as int) {
        None
    } else {
        match first_padding(code_from(image, va), 0, extent_limit(image, va)) {
            Some(p) => Some((va + p) as u64),
            None => None,
        }
    }
}

/// Finds where the function starting at `va` ends.
///
/// MSVC aligns functions and fills the gap with `int3`, so the next padding
/// run is the end. That is far more reliable than following control flow: a
/// jump table, or a first `ret` that is an early exit, defeats any "stop at
/// the first return" rule.
pub fn extent(image: &Image, va: u64) -> (r: Option<u64>)
    requires
        image.wf(),
    ensures
        r == extent_spec(*image, va),
        r matches Some(e) ==> va <= e < image.end_spec(),
{
    let bytes = match image.from(va) {
        Some(b) => b,
        None => {
            return None;
        },
    };
    let limit = if MAX_FUNCTION_BYTES < bytes.len() {
        MAX_FUNCTION_BYTES
    } else {
        bytes.len()
    };
    let mut p: usize = 0;
    while p < limit && limit - p >= 3
        invariant
            image.wf(),
            image.holds(va as int),
            bytes@ == code_from(*image, va),
            limit == extent_limit(*image, va),
            limit <= bytes@.len(),
            va + bytes@.len() <= u64::MAX,
            va + bytes@.len() == image.end_spec(),
            first_padding(bytes@, 0, limit as int) == first_padding(bytes@, p as int, limit as int),
        decreases limit - p,
    {
        if bytes[p] == INT3 && bytes[p + 1] == INT3 && bytes[p + 2] == INT3 {
            return Some(va + p as u64);
        }
        p += 1;
    }
    None
}

pub open spec fn is_branch_spec(m: u16) -> bool {
    ||| m == MNEMONIC_JMP
    ||| m == MNEMONIC_JE
    ||| m == MNEMONIC_JNE
    ||| m == MNEMONIC_JB
    ||| m == MNEMONIC_JBE
    ||| m == MNEMONIC_JA
    ||| m == MNEMONIC_JAE
    ||| m == MNEMONIC_JL
    ||| m == MNEMONIC_JLE
    ||| m == MNEMONIC_JG
    ||| m == MNEMONIC_JGE
    ||| m == MNEMONIC_JS
    ||| m == MNEMONIC_JNS
    ||| m == MNEMONIC_JO
    ||| m == MNEMONIC_JNO
    ||| m == MNEMONIC_JP
    ||| m == MNEMONIC_JNP
    ||| m == MNEMONIC_JCXZ
    ||| m == MNEMONIC_JECXZ
}

pub open spec fn is_return(m: u16) -> bool {
    m == MNEMONIC_RET || m == MNEMONIC_RETF
}

/// Whether `m` is a jump, conditional or not.
pub fn is_branch(m: u16) -> (r: bool)
    ensures
        r == is_branch_spec(m),
{
    m == MNEMONIC_JMP || m == MNEMONIC_JE || m == MNEMONIC_JNE || m == MNEMONIC_JB || m
        == MNEMONIC_JBE || m == MNEMONIC_JA || m == MNEMONIC_JAE || m == MNEMONIC_JL || m
        == MNEMONIC_JLE || m == MNEMONIC_JG || m == MNEMONIC_JGE || m == MNEMONIC_JS || m
        == MNEMONIC_JNS || m == MNEMONIC_JO || m == MNEMONIC_JNO || m == MNEMONIC_JP || m
        == MNEMONIC_JNP || m == MNEMONIC_JCXZ || m == MNEMONIC_JECXZ
}

/// How many of `lines` a decode that stops at the final return keeps: a
/// return ends the function only once no branch seen so far leads past it.
pub open spec fn kept_until_return(lines: Seq<LineView>, furthest: u64) -> nat
    decreases lines.len(),
{
    if lines.len() == 0 {
        0
    } else {
        let i = lines[0].instruction;
        let f = if is_branch_spec(i.mnemonic) && i.near_branch_target > furthest {
            i.near_branch_target
        } else {
            furthest
        };
        if is_return(i.mnemonic) && lines[0].va >= f {
            1
        } else {
            1 + kept_until_return(lines.skip(1), f)
        }
    }
}

proof fn lemma_views_skip(lines: Seq<Line>, k: int)
    requires
        0 <= k <= lines.len(),
    ensures
        views(lines.skip(k)) == views(lines).skip(k),
        views(lines.take(k)) == views(lines).take(k),
        views(lines).len() == lines.len(),
{
    assert(views(lines.skip(k)) =~= views(lines).skip(k));
    assert(views(lines.take(k)) =~= views(lines).take(k));
}

/// Keeps the lines up to the return that ends the function: a `ret` before
/// the furthest branch target seen so far is one exit of several.
pub fn until_return(lines: Vec<Line>, va: u64) -> (r: Vec<Line>)
    ensures
        views(r@) == views(lines@).take(kept_until_return(views(lines@), va) as int),
        small_ops(views(lines@)) ==> small_ops(views(r@)),
        r@.len() <= lines@.len(),
{
    let mut furthest = va;
    let mut k: usize = 0;
    let ghost all = lines@;
    let ghost v = views(all);
    let mut kept = lines;
    assert(v.skip(0) =~= v);
    while k < kept.len()
        invariant
            kept@ == all,
            lines@ == all,
            v == views(all),
            k <= all.len(),
            kept_until_return(v, va) == k + kept_until_return(v.skip(k as int), furthest),
        decreases all.len() - k,
    {
        let ghost before = furthest;
        let i = &kept[k].instruction;
        assert(v.skip(k as int)[0] == kept[k as int]@);
        assert(v.skip(k as int).skip(1) =~= v.skip(k + 1));
        if is_branch(i.mnemonic) && i.near_branch_target > furthest {
            furthest = i.near_branch_target;
        }
        if (i.mnemonic == MNEMONIC_RET || i.mnemonic == MNEMONIC_RETF) && kept[k].va >= furthest {
            assert(kept_until_return(v.skip(k as int), before) == 1);
            kept.truncate(k + 1);
            proof {
                lemma_views_skip(all, k + 1);
                assert(kept@ =~= all.take(k + 1));
            }
            return kept;
        }
        k += 1;
    }
    assert(all.take(all.len() as int) =~= all);
    kept
}

/// How many of `lines`, from the first, lie before `end`.
pub open spec fn below_end(lines: Seq<LineView>, end: u64) -> nat
    decreases lines.len(),
{
    if lines.len() == 0 {
        0
    } else if lines[0].va < end {
        1 + below_end(lines.skip(1), end)
    } else {
        0
    }
}

/// Keeps the lines, from the first, that lie before `end`.
pub fn before_end(lines: Vec<Line>, end: u64) -> (r: Vec<Line>)
    ensures
        views(r@) == views(lines@).take(below_end(views(lines@), end) as int),
        small_ops(views(lines@)) ==> small_ops(views(r@)),
        r@.len() <= lines@.len(),
{
    let ghost all = lines@;
    let ghost v = views(all);
    let mut kept = lines;
    let mut k: usize = 0;
    assert(v.skip(0) =~= v);
    while k < kept.len() && kept[k].va < end
        invariant
            kept@ == all,
            v == views(all),
            k <= all.len(),
            below_end(v, end) == k + below_end(v.skip(k as int), end),
        decreases all.len() - k,
    {
        assert(v.skip(k as int)[0] == kept[k as int]@);
        assert(v.skip(k as int).skip(1) =~= v.skip(k + 1));
        k += 1;
    }
    proof {
        if k < all.len() {
            assert(v.skip(k as int)[0] == kept[k as int]@);
        } else {
            assert(v.skip(k as int) =~= Seq::<LineView>::empty());
        }
        lemma_views_skip(all, k as int);
    }
    kept.truncate(k);
    assert(kept@ =~= all.take(k as int));
    kept
}

/// How many instructions `function` decodes when the function ends at `end`.
pub open spec fn function_count(va: u64, end: u64) -> nat {
    if end - va < MAX_FUNCTION_INSTRUCTIONS {
        (end - va) as nat
    } else {
        MAX_FUNCTION_INSTRUCTIONS as nat
    }
}

/// What `function` decodes at `va`.
pub open spec fn function_spec(image: Image, va: u64) -> Seq<LineView> {
    match extent_spec(image, va) {
        Some(end) => {
            let lines = decode_spec(image, va, function_count(va, end));
            lines.take(below_end(lines, end) as int)
        },
        None => {
            let lines = decode_spec(image, va, MAX_FUNCTION_INSTRUCTIONS as nat);
            lines.take(kept_until_return(lines, va) as int)
        },
    }
}

/// Fallback for functions with no padding after them: decodes up to the
/// return that no earlier branch jumps past.
pub fn decode_until_return(image: &Image, va: u64) -> (r: Vec<Line>)
    requires
        image.wf(),
    ensures
        small_ops(views(r@)),
        r@.len() <= MAX_FUNCTION_INSTRUCTIONS,
        views(r@) == ({
            let lines = decode_spec(*image, va, MAX_FUNCTION_INSTRUCTIONS as nat);
            lines.take(kept_until_return(lines, va) as int)
        }),
{
    let lines = decode(image, va, MAX_FUNCTION_INSTRUCTIONS);
    until_return(lines, va)
}

/// Decodes a whole function: from `va` to the padding that follows it, or,
/// where no padding follows, up to its final return.
///
/// Data embedded between basic blocks decodes as nonsense instructions. That
/// is accepted: the callers count signals across the body, and a few bogus
/// instructions do far less damage than a body cut short at the first `ret`.
pub fn function(image: &Image, va: u64) -> (r: Vec<Line>)
    requires
        image.wf(),
    ensures
        views(r@) == function_spec(*image, va),
        small_ops(views(r@)),
        r@.len() <= MAX_FUNCTION_INSTRUCTIONS,
{
    match extent(image, va) {
        Some(end) => {
            let span = end - va;
            let count: usize = if span < MAX_FUNCTION_INSTRUCTIONS as u64 {
                span as usize
            } else {
                MAX_FUNCTION_INSTRUCTIONS
            };
            let lines = decode(image, va, count);
            before_end(lines, end)
        },
        None => decode_until_return(image, va),
    }
}

proof fn lemma_below_end(lines: Seq<LineView>, end: u64)
    ensures
        below_end(lines, end) <= lines.len(),
        forall|k: int| 0 <= k < below_end(lines, end) ==> #[trigger] lines[k].va < end,
    decreases lines.len(),
{
    if lines.len() > 0 && lines[0].va < end {
        lemma_below_end(lines.skip(1), end);
        assert forall|k: int| 0 <= k < below_end(lines, end) implies #[trigger] lines[k].va < end by {
            if k > 0 {
                assert(lines[k] == lines.skip(1)[k - 1]);
            }
        }
    }
}

/// A function that ends at padding holds no instruction at or past the
/// padding: everything `function` gives lies between its start and its end.
pub proof fn law_function_stays_before_padding(image: Image, va: u64)
    ensures
        extent_spec(image, va) matches Some(end) ==> forall|k: int|
            0 <= k < function_spec(image, va).len() ==> #[trigger] function_spec(image, va)[k].va
                < end,
{
    if let Some(end) = extent_spec(image, va) {
        let lines = decode_spec(image, va, function_count(va, end));
        lemma_below_end(lines, end);
        assert forall|k: int| 0 <= k < function_spec(image, va).len() implies #[trigger] function_spec(
            image,
            va,
        )[k].va < end by {
            assert(function_spec(image, va)[k] == lines[k]);
        }
    }
}

} // verus!
