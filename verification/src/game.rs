//! The game module as mapped in memory: its section table, its build stamp,
//! and the addresses verified for that build.
//!
//! Only the in-memory image is meaningful: the executable ships with `.text`
//! encrypted by the Steam DRM stub. Reading the memory is the host's; the
//! header bytes and section contents come here as plain bytes.

use vstd::prelude::*;

use crate::arc::{trim_nulls, trimmed};
use crate::bytes::{le_u16, le_u32, read_u16, read_u32};
use crate::text::{chars_of, lossy_text, string_of, utf8_lossy};

verus! {

/// "MZ".
pub const DOS_SIGNATURE: u16 = 0x5A4D;

/// "PE\0\0".
pub const NT_SIGNATURE: u32 = 0x0000_4550;

pub const IMAGE_SCN_MEM_EXECUTE: u32 = 0x2000_0000;

pub const IMAGE_SCN_MEM_WRITE: u32 = 0x8000_0000;

/// Bytes of one section header.
pub const SECTION_HEADER: usize = 40;

#[derive(Clone, Debug)]
pub struct Section {
    pub name: String,
    /// Runtime virtual address, module base already applied.
    pub start: usize,
    /// Virtual size: what is mapped, not the on-disk size.
    pub size: usize,
    pub executable: bool,
    pub writable: bool,
}

pub struct SectionView {
    pub name: Seq<char>,
    pub start: usize,
    pub size: usize,
    pub executable: bool,
    pub writable: bool,
}

impl View for Section {
    type V = SectionView;

    open spec fn view(&self) -> SectionView {
        SectionView {
            name: self.name@,
            start: self.start,
            size: self.size,
            executable: self.executable,
            writable: self.writable,
        }
    }
}

impl Section {
    /// Whether `addr` lies in the section.
    pub fn contains(&self, addr: usize) -> (r: bool)
        requires
            self.start + self.size <= usize::MAX,
        ensures
            r == (self.start <= addr < self.start + self.size),
    {
        addr >= self.start && addr < self.end()
    }

    pub fn end(&self) -> (r: usize)
        requires
            self.start + self.size <= usize::MAX,
        ensures
            r == self.start + self.size,
    {
        self.start + self.size
    }
}

pub struct Module {
    pub base: usize,
    pub size: usize,
    pub sections: Vec<Section>,
}

/// The sections as plain values.
pub open spec fn section_views(sections: Seq<Section>) -> Seq<SectionView> {
    sections.map_values(|s: Section| s@)
}

/// Where the NT header starts, by the DOS header's `e_lfanew`.
pub open spec fn nt_offset(h: Seq<u8>) -> int {
    le_u32(h, 0x3C) as i32 as int
}

/// The section header `i` of the table at `table`.
pub open spec fn section_header(base: usize, h: Seq<u8>, table: int, i: int) -> SectionView {
    let at = table + i * SECTION_HEADER;
    let characteristics = le_u32(h, at + 36);
    SectionView {
        name: trimmed(utf8_lossy(h.subrange(at, at + 8))),
        start: (base + le_u32(h, at + 12)) as usize,
        size: le_u32(h, at + 8) as usize,
        executable: characteristics & IMAGE_SCN_MEM_EXECUTE != 0,
        writable: characteristics & IMAGE_SCN_MEM_WRITE != 0,
    }
}

/// Where the section table starts.
pub open spec fn table_offset(h: Seq<u8>) -> int {
    nt_offset(h) + 24 + le_u16(h, nt_offset(h) + 20)
}

/// The virtual address of section `i`, relative to the base.
pub open spec fn section_va(h: Seq<u8>, i: int) -> u32 {
    le_u32(h, table_offset(h) + i * SECTION_HEADER + 12)
}

/// Whether the headers, as far as they are read, lie in `h`, and every
/// section's address fits.
pub open spec fn headers_fit(base: usize, h: Seq<u8>) -> bool {
    let nt = nt_offset(h);
    &&& h.len() >= 0x40
    &&& 0 <= nt
    &&& nt + 24 + 60 <= h.len()
    &&& table_offset(h) + le_u16(h, nt + 6) * SECTION_HEADER <= h.len()
    &&& forall|i: int| 0 <= i < le_u16(h, nt + 6) ==> base + #[trigger] section_va(h, i) <= usize::MAX
}

/// The module the headers describe, when they are a PE image's.
pub open spec fn module_of(base: usize, h: Seq<u8>) -> Option<(usize, Seq<SectionView>)> {
    if h.len() < 2 || le_u16(h, 0) != DOS_SIGNATURE || !headers_fit(base, h) {
        None
    } else if le_u32(h, nt_offset(h)) != NT_SIGNATURE {
        None
    } else {
        let nt = nt_offset(h);
        Some(
            (
                le_u32(h, nt + 24 + 56) as usize,
                Seq::new(
                    le_u16(h, nt + 6) as nat,
                    |i: int| section_header(base, h, table_offset(h), i),
                ),
            ),
        )
    }
}

fn headers_fit_exec(base: usize, h: &[u8]) -> (r: bool)
    ensures
        r == headers_fit(base, h@),
{
    if h.len() < 0x40 {
        return false;
    }
    let lfanew = read_u32(h, 0x3C) as i32;
    if lfanew < 0 {
        return false;
    }
    let nt = lfanew as usize;
    if nt > h.len() || h.len() - nt < 84 {
        return false;
    }
    let optional_size = read_u16(h, nt + 20) as usize;
    let count = read_u16(h, nt + 6) as usize;
    let table = nt + 24 + optional_size;
    if table > h.len() || (h.len() - table) / SECTION_HEADER < count {
        assert(table + count * SECTION_HEADER > h@.len()) by (nonlinear_arith)
            requires
                table > h@.len() || (h@.len() - table) / (SECTION_HEADER as int) < count,
        ;
        return false;
    }
    assert(table + count * SECTION_HEADER <= h@.len()) by (nonlinear_arith)
        requires
            table <= h@.len(),
            (h@.len() - table) / (SECTION_HEADER as int) >= count,
    ;
    let mut i: usize = 0;
    while i < count
        invariant
            i <= count,
            table + count * SECTION_HEADER <= h@.len(),
            table == table_offset(h@),
            count == le_u16(h@, nt_offset(h@) + 6),
            forall|j: int| 0 <= j < i ==> base + #[trigger] section_va(h@, j) <= usize::MAX,
        decreases count - i,
    {
        let at = table + i * SECTION_HEADER;
        assert(at + SECTION_HEADER <= table + count * SECTION_HEADER) by (nonlinear_arith)
            requires
                i < count,
                at == table + i * SECTION_HEADER,
        ;
        let va = read_u32(h, at + 12) as usize;
        assert(va == section_va(h@, i as int));
        if va > usize::MAX - base {
            return false;
        }
        i += 1;
    }
    true
}

/// One section header, read.
fn read_section_header(base: usize, h: &[u8], table: usize, i: usize) -> (r: Section)
    requires
        table + (i + 1) * SECTION_HEADER <= h.len(),
        table == table_offset(h@),
        base + section_va(h@, i as int) <= usize::MAX,
    ensures
        r@ == section_header(base, h@, table as int, i as int),
{
    assert(table + i * SECTION_HEADER + SECTION_HEADER == table + (i + 1) * SECTION_HEADER)
        by (nonlinear_arith);
    let at = table + i * SECTION_HEADER;
    let decoded = lossy_text(&h[at..at + 8]);
    let chars = chars_of(decoded.as_str());
    let name = string_of(trim_nulls(chars.as_slice()).as_slice());
    let size = read_u32(h, at + 8) as usize;
    let va = read_u32(h, at + 12) as usize;
    let characteristics = read_u32(h, at + 36);
    Section {
        name,
        start: base + va,
        size,
        executable: characteristics & IMAGE_SCN_MEM_EXECUTE != 0,
        writable: characteristics & IMAGE_SCN_MEM_WRITE != 0,
    }
}

impl Module {
    /// Reads the module mapped at `base` from its header bytes: the DOS
    /// header, the NT header and the section table. `None` where they are not
    /// a PE image's, or do not lie within `headers`.
    pub fn from_headers(base: usize, headers: &[u8]) -> (r: Option<Module>)
        ensures
            match (r, module_of(base, headers@)) {
                (Some(m), Some((size, sections))) => m.base == base && m.size == size
                    && section_views(m.sections@) == sections,
                (None, None) => true,
                _ => false,
            },
    {
        if headers.len() < 2 || read_u16(headers, 0) != DOS_SIGNATURE {
            return None;
        }
        if !headers_fit_exec(base, headers) {
            return None;
        }
        let nt = read_u32(headers, 0x3C) as i32 as usize;
        if read_u32(headers, nt) != NT_SIGNATURE {
            return None;
        }
        let count = read_u16(headers, nt + 6) as usize;
        let optional_size = read_u16(headers, nt + 20) as usize;
        let image_size = read_u32(headers, nt + 24 + 56) as usize;
        let table = nt + 24 + optional_size;
        let ghost want = module_of(base, headers@)->Some_0.1;
        let mut sections: Vec<Section> = Vec::new();
        let mut i: usize = 0;
        while i < count
            invariant
                headers_fit(base, headers@),
                table == table_offset(headers@),
                count == le_u16(headers@, nt_offset(headers@) + 6),
                want == Seq::new(count as nat, |j: int| section_header(base, headers@, table as int, j)),
                table + count * SECTION_HEADER <= headers.len(),
                i <= count,
                section_views(sections@) == want.take(i as int),
            decreases count - i,
        {
            assert(table + (i + 1) * SECTION_HEADER <= table + count * SECTION_HEADER)
                by (nonlinear_arith)
                requires
                    i < count,
            ;
            let s = read_section_header(base, headers, table, i);
            let ghost before = sections@;
            sections.push(s);
            assert(section_views(sections@) =~= section_views(before).push(s@));
            i += 1;
            assert(section_views(sections@) =~= want.take(i as int));
        }
        assert(want.take(count as int) =~= want);
        Some(Module { base, size: image_size, sections })
    }
}

/// The first of `sections` named `name`.
pub open spec fn named(sections: Seq<SectionView>, name: Seq<char>, from: int) -> Option<int>
    decreases sections.len() - from,
{
    if from < 0 || from >= sections.len() {
        None
    } else if sections[from].name == name {
        Some(from)
    } else {
        named(sections, name, from + 1)
    }
}

/// The first executable section that is not the DRM stub.
pub open spec fn first_code(sections: Seq<SectionView>, from: int) -> Option<int>
    decreases sections.len() - from,
{
    if from < 0 || from >= sections.len() {
        None
    } else if sections[from].executable && sections[from].name != DRM_SECTION@ {
        Some(from)
    } else {
        first_code(sections, from + 1)
    }
}

/// Section added by the Steam DRM packer. Its presence means `.text` starts
/// encrypted and its entry point runs before the game's own.
pub const DRM_SECTION: &'static str = ".bind";

/// The section that holds the game's code.
pub const CODE_SECTION: &'static str = ".text";

impl Module {
    pub open spec fn sections_view(&self) -> Seq<SectionView> {
        section_views(self.sections@)
    }

    /// The first section named `name`.
    pub fn section(&self, name: &str) -> (r: Option<&Section>)
        ensures
            match named(self.sections_view(), name@, 0) {
                Some(i) => r matches Some(s) && s@ == self.sections_view()[i],
                None => r is None,
            },
    {
        let ghost v = self.sections_view();
        let mut i: usize = 0;
        while i < self.sections.len()
            invariant
                v == self.sections_view(),
                i <= self.sections@.len(),
                named(v, name@, 0) == named(v, name@, i as int),
            decreases self.sections@.len() - i,
        {
            let chars = chars_of(self.sections[i].name.as_str());
            assert(v[i as int] == self.sections@[i as int]@);
            if crate::text::spells(chars.as_slice(), name) {
                return Some(&self.sections[i]);
            }
            i += 1;
        }
        None
    }

    /// The game's code section: `.text`, or else the first executable section
    /// that is not the DRM stub.
    pub fn code(&self) -> (r: Option<&Section>)
        ensures
            match named(self.sections_view(), CODE_SECTION@, 0) {
                Some(i) => r matches Some(s) && s@ == self.sections_view()[i],
                None => match first_code(self.sections_view(), 0) {
                    Some(i) => r matches Some(s) && s@ == self.sections_view()[i],
                    None => r is None,
                },
            },
    {
        if let Some(s) = self.section(CODE_SECTION) {
            return Some(s);
        }
        let ghost v = self.sections_view();
        let mut i: usize = 0;
        while i < self.sections.len()
            invariant
                v == self.sections_view(),
                named(v, CODE_SECTION@, 0) is None,
                i <= self.sections@.len(),
                first_code(v, 0) == first_code(v, i as int),
            decreases self.sections@.len() - i,
        {
            let chars = chars_of(self.sections[i].name.as_str());
            assert(v[i as int] == self.sections@[i as int]@);
            if self.sections[i].executable && !crate::text::spells(chars.as_slice(), DRM_SECTION) {
                return Some(&self.sections[i]);
            }
            i += 1;
        }
        None
    }

    /// Whether the executable is packed by Steam DRM.
    pub fn is_drm_packed(&self) -> (r: bool)
        ensures
            r == named(self.sections_view(), DRM_SECTION@, 0) is Some,
    {
        self.section(DRM_SECTION).is_some()
    }
}

/// Whether `needle` occurs in `haystack` at `i`.
pub open spec fn bytes_at(haystack: Seq<u8>, needle: Seq<u8>, i: int) -> bool {
    0 <= i && i + needle.len() <= haystack.len() && haystack.subrange(i, i + needle.len()) == needle
}

/// The first place `needle` occurs from `i` on.
pub open spec fn first_bytes(haystack: Seq<u8>, needle: Seq<u8>, i: int) -> Option<int>
    decreases haystack.len() + 1 - i,
{
    if i < 0 || i + needle.len() > haystack.len() {
        None
    } else if bytes_at(haystack, needle, i) {
        Some(i)
    } else {
        first_bytes(haystack, needle, i + 1)
    }
}

/// How many places from `i` on `needle` occurs at, overlaps counted.
pub open spec fn count_from(haystack: Seq<u8>, needle: Seq<u8>, i: int) -> nat
    decreases haystack.len() + 1 - i,
{
    if i < 0 || i + needle.len() > haystack.len() {
        0
    } else {
        (if bytes_at(haystack, needle, i) {
            1nat
        } else {
            0nat
        }) + count_from(haystack, needle, i + 1)
    }
}

fn bytes_here(haystack: &[u8], needle: &[u8], i: usize) -> (r: bool)
    requires
        i + needle@.len() <= haystack.len(),
    ensures
        r == bytes_at(haystack@, needle@, i as int),
{
    let mut k: usize = 0;
    while k < needle.len()
        invariant
            k <= needle@.len(),
            i + needle@.len() <= haystack.len(),
            forall|j: int| 0 <= j < k ==> haystack@[i + j] == needle@[j],
        decreases needle@.len() - k,
    {
        if haystack[i + k] != needle[k] {
            assert(haystack@.subrange(i as int, i + needle@.len())[k as int] != needle@[k as int]);
            return false;
        }
        k += 1;
    }
    assert(haystack@.subrange(i as int, i + needle@.len()) =~= needle@);
    true
}

/// Where `needle` first occurs; never for an empty needle.
pub fn find_bytes(haystack: &[u8], needle: &[u8]) -> (r: Option<usize>)
    ensures
        needle@.len() == 0 ==> r is None,
        needle@.len() > 0 ==> (r is None <==> first_bytes(haystack@, needle@, 0) is None),
        r matches Some(i) ==> first_bytes(haystack@, needle@, 0) == Some(i as int) && i
            + needle@.len() <= haystack@.len(),
{
    if needle.len() == 0 || haystack.len() < needle.len() {
        return None;
    }
    let last = haystack.len() - needle.len();
    let mut i: usize = 0;
    while i <= last
        invariant
            needle@.len() > 0,
            last + needle.len() == haystack.len(),
            last == haystack@.len() - needle@.len(),
            i <= last + 1,
            first_bytes(haystack@, needle@, 0) == first_bytes(haystack@, needle@, i as int),
        decreases last + 1 - i,
    {
        if bytes_here(haystack, needle, i) {
            return Some(i);
        }
        i += 1;
    }
    None
}

/// How many times `needle` occurs, overlaps counted; none for an empty
/// needle.
pub fn count_bytes(haystack: &[u8], needle: &[u8]) -> (r: usize)
    ensures
        needle@.len() == 0 ==> r == 0,
        needle@.len() > 0 ==> r == count_from(haystack@, needle@, 0),
{
    if needle.len() == 0 || haystack.len() < needle.len() {
        return 0;
    }
    let last = haystack.len() - needle.len();
    let mut n: usize = 0;
    let mut i: usize = 0;
    while i <= last
        invariant
            needle@.len() > 0,
            last + needle.len() == haystack.len(),
            last == haystack@.len() - needle@.len(),
            i <= last + 1,
            n + count_from(haystack@, needle@, i as int) == count_from(haystack@, needle@, 0),
            n <= i,
        decreases last + 1 - i,
    {
        if bytes_here(haystack, needle, i) {
            n += 1;
        }
        i += 1;
    }
    n
}

/// The first of `sections` that holds `addr`.
pub open spec fn holding(sections: Seq<SectionView>, addr: usize, from: int) -> Option<int>
    decreases sections.len() - from,
{
    if from < 0 || from >= sections.len() {
        None
    } else if sections[from].start <= addr < sections[from].start + sections[from].size {
        Some(from)
    } else {
        holding(sections, addr, from + 1)
    }
}

/// Every section ends within the address space.
pub open spec fn sections_fit(sections: Seq<SectionView>) -> bool {
    forall|i: int| 0 <= i < sections.len() ==> #[trigger] sections[i].start + sections[i].size <= usize::MAX
}

impl Module {
    /// The first section that holds `addr`.
    pub fn section_of(&self, addr: usize) -> (r: Option<&Section>)
        requires
            sections_fit(self.sections_view()),
        ensures
            match holding(self.sections_view(), addr, 0) {
                Some(i) => r matches Some(s) && s@ == self.sections_view()[i],
                None => r is None,
            },
    {
        let ghost v = self.sections_view();
        let mut i: usize = 0;
        while i < self.sections.len()
            invariant
                v == self.sections_view(),
                sections_fit(v),
                i <= self.sections@.len(),
                holding(v, addr, 0) == holding(v, addr, i as int),
            decreases self.sections@.len() - i,
        {
            assert(v[i as int] == self.sections@[i as int]@);
            if self.sections[i].contains(addr) {
                return Some(&self.sections[i]);
            }
            i += 1;
        }
        None
    }
}

/// What the build stamp starts with: `MasterRelease `.
pub open spec fn marker_spec() -> Seq<u8> {
    seq![0x4D, 0x61, 0x73, 0x74, 0x65, 0x72, 0x52, 0x65, 0x6C, 0x65, 0x61, 0x73, 0x65, 0x20]
}

/// The bytes of `MasterRelease `.
pub fn marker() -> (r: [u8; 14])
    ensures
        r@ == marker_spec(),
{
    let r = [0x4D, 0x61, 0x73, 0x74, 0x65, 0x72, 0x52, 0x65, 0x6C, 0x65, 0x61, 0x73, 0x65, 0x20];
    assert(r@ =~= marker_spec());
    r
}

/// The longest stamp read.
pub const MAX_STAMP: usize = 64;

/// The build this project's addresses were gathered against.
pub const SUPPORTED: &'static str = "MasterRelease Jan 28 2025 16:45:59";

/// The bytes of `b`, up to the first NUL and at most `max` of them.
pub open spec fn cstr(b: Seq<u8>, max: nat) -> Seq<u8>
    decreases b.len(),
{
    if b.len() == 0 || max == 0 || b[0] == 0 {
        seq![]
    } else {
        seq![b[0]] + cstr(b.skip(1), (max - 1) as nat)
    }
}

fn read_cstr(b: &[u8], max: usize) -> (r: Vec<u8>)
    ensures
        r@ == cstr(b@, max as nat),
{
    let mut out: Vec<u8> = Vec::new();
    let mut i: usize = 0;
    assert(b@.skip(0) =~= b@);
    while i < b.len() && i < max && b[i] != 0
        invariant
            i <= b@.len(),
            i <= max,
            cstr(b@, max as nat) == out@ + cstr(b@.skip(i as int), (max - i) as nat),
        decreases b@.len() - i,
    {
        assert(b@.skip(i as int).skip(1) =~= b@.skip(i + 1));
        let ghost before = out@;
        out.push(b[i]);
        assert(before + (seq![b@[i as int]] + cstr(b@.skip(i + 1), (max - i - 1) as nat)) =~= out@
            + cstr(b@.skip(i + 1), (max - i - 1) as nat));
        i += 1;
    }
    assert(out@ + Seq::<u8>::empty() =~= out@);
    out
}

#[derive(Clone, Debug)]
pub struct Build {
    pub stamp: String,
}

/// The stamp found in a module's read-only data, if any.
pub open spec fn stamp_in(rdata: Seq<u8>) -> Option<Seq<char>> {
    match first_bytes(rdata, marker_spec(), 0) {
        None => None,
        Some(at) => {
            let stamp = utf8_lossy(cstr(rdata.skip(at), MAX_STAMP as nat));
            if stamp.len() == 0 {
                None
            } else {
                Some(stamp)
            }
        },
    }
}

impl Build {
    /// Identifies the build by the stamp Capcom leaves in read-only data.
    /// Unlike `.text`, that section is never encrypted.
    pub fn from_rdata(rdata: &[u8]) -> (r: Option<Build>)
        ensures
            match stamp_in(rdata@) {
                Some(s) => r matches Some(b) && b.stamp@ == s,
                None => r is None,
            },
    {
        let marker = marker();
        let needle = marker.as_slice();
        assert(needle@.len() == 14);
        let offset = match find_bytes(rdata, needle) {
            Some(o) => o,
            None => {
                return None;
            },
        };

        let rest = vstd::slice::slice_subrange(rdata, offset, rdata.len());
        assert(rest@ =~= rdata@.skip(offset as int));
        let bytes = read_cstr(rest, MAX_STAMP);
        let stamp = lossy_text(bytes.as_slice());
        if chars_of(stamp.as_str()).len() == 0 {
            None
        } else {
            Some(Build { stamp })
        }
    }

    /// Whether this is the build the addresses were gathered against.
    pub fn is_supported(&self) -> (r: bool)
        ensures
            r == (self.stamp@ == SUPPORTED@),
    {
        let chars = chars_of(self.stamp.as_str());
        crate::text::spells(chars.as_slice(), SUPPORTED)
    }
}

/// Addresses for one game build, all runtime virtual addresses; the module
/// has no ASLR and always loads at its preferred base.
#[derive(Clone, Copy, Debug)]
pub struct Addresses {
    /// `int __thiscall(Bag*)` - number of empty slots.
    pub bag_count_empty: usize,
    /// `int __thiscall(Bag*)` - index of the first empty slot, or -1 if full.
    pub bag_first_empty: usize,
    /// Return addresses of the calls to `bag_first_empty` made for a two-slot
    /// item: in `Bag::add_item` (`call` at `0x004DB568`) and in its slot-finding
    /// helper `0x004DAFB0` (`call` at `0x004DB092`). Both follow `cmp eax, 2` on
    /// the item's width. A two-slot item is placed differently from a single,
    /// and the return address is what tells the two requests apart.
    pub two_slot_first_empty_callers: [usize; 2],
    /// `int __thiscall(Bag*, int id)` - slot holding an item, or -1.
    ///
    /// Every question the game asks about what the player is carrying comes
    /// through here. The two narrower searches it dispatches to have no other
    /// caller, so this is the only place an item can be missed.
    pub bag_find_item: usize,
    /// The fourth instruction of that function, where its prologue ends.
    pub bag_find_item_continue: usize,

    /// `Bag* __thiscall(owner)` - the played character's bag. Called by the
    /// panel drawing code every frame, which makes it the one that matters.
    pub player_bag: usize,
    /// `Bag* __thiscall(owner)` - the partner's bag.
    pub partner_bag: usize,
    /// `Bag* __thiscall(owner, character_id)` - the primitive the rest of the
    /// game reaches for, and what the wrapper at 0x0050DC70 calls.
    pub bag_by_id: usize,

    /// Global holding the object that knows who the characters are.
    pub character_holder: usize,
    /// `__thiscall(holder)` - the character being played.
    pub played_character: usize,
    /// `__thiscall(holder)` - the other character.
    pub partner_character: usize,
    /// `__thiscall(character)` - that character's id.
    pub character_id: usize,

    /// `__thiscall(menu)` - draws both inventory panels. Three instructions,
    /// six bytes, before it touches anything.
    pub draw_panels: usize,
    /// The instruction after those three.
    pub draw_panels_continue: usize,

    // --- Door transition, all inside sDoorLoad::update at 0x00552300 ---

    /// The computation that sets the animation timer, 14 bytes.
    pub door_duration: usize,
    /// What is left of that computation afterwards, 28 bytes.
    pub door_duration_tail: usize,
    /// The branch used when the door has no model, `mov [edi+0x2C], 1.0f`.
    pub door_duration_modelless: usize,
    /// The re-arm that puts a second back when the room change is not done.
    pub door_duration_rearm: usize,
    /// State five's `je`, taken for as long as the door's motion is playing.
    pub door_motion_wait: usize,

    /// The routine that runs while the player is at a typewriter. Three
    /// instructions, five bytes, before it touches anything.
    pub typewriter: usize,
    /// The instruction after those three.
    pub typewriter_continue: usize,

    // --- The typewriter prompt, all inside that routine ---

    /// `mov [edi+0x10], 2.0f` at the end of the branch taken with an ink
    /// ribbon. The field is the sub-state the next frame dispatches on, and
    /// only `2.0f` reaches the code that reads which choice was made.
    pub typewriter_has_ribbon: usize,
    /// `mov [edi+0x10], 0.0f`, the same at the end of the branch without one.
    /// This is why that prompt never asks anything: the sub-state it leaves
    /// behind does not reach the choice.
    pub typewriter_no_ribbon: usize,
    /// `cmp dword ptr [esp+0x60], 1` - the choice the player made, where 1 is
    /// the first option. Five bytes.
    pub typewriter_choice: usize,
    /// `call set_room_phase` on the path taken after answering yes, with the
    /// phase already pushed. Five bytes.
    pub typewriter_open_screen: usize,

    // --- The inventory screen ---

    /// `call play_menu_animation` as the screen opens. Five bytes, with the
    /// animation's id already on the stack; id 1 brings the partner half in.
    pub inventory_open_animation: usize,
    /// `__thiscall(menu, animation)` - what that call goes to.
    pub play_menu_animation: usize,
    /// `inc dword ptr [edi+0x294]` where the screen finishes setting itself up.
    /// Six bytes, with the menu in `edi`.
    pub inventory_menu_start: usize,
    /// `cmp byte ptr [edi+0x2CA], 1` on the path taken when the played
    /// character changes. Seven bytes, and the `jne` after it reads its flags.
    pub inventory_change_character: usize,
    /// `mov eax, [esi+0x60]; push 0` as the screen closes. Five bytes.
    pub inventory_menu_close: usize,

    /// `cmp byte ptr [eax+0x25], 1; je <kick>` at the top of the handler that
    /// runs every frame while the selection is in the partner's half. Ten
    /// bytes. The byte tracks whether the partner is still there to exchange
    /// with, and the `je` throws the selection back out when they are not.
    pub partner_half_valid: usize,
    /// The instruction after that pair.
    pub partner_half_continue: usize,
    /// Where the `je` went: the write that puts the menu back in phase six.
    pub partner_half_kick: usize,

    // --- Saving and loading ---

    /// `imul edi, 0x1C850` where the game works out which slot it is saving to.
    /// Six bytes, with the slot index in `edi`.
    pub save_slot: usize,
    /// `imul esi, 0x1C850`, the same on the load path, with the slot in `esi`.
    pub load_slot: usize,
    /// The first `call` of the routine that starts a new game. Five bytes.
    pub new_game: usize,

    /// `__thiscall(manager, phase)` - puts the game into a screen. Phase 5 is
    /// the inventory and 6 is saving.
    pub set_room_phase: usize,
    /// `bool __thiscall(inventory)` - readies the inventory screen. Called
    /// before the phase is set, and answers whether it may be opened at all.
    pub prepare_inventory: usize,
    /// Global holding the object `prepare_inventory` is called on.
    pub inventory_holder: usize,

    /// The three `push <format>` sites that build the path of a message
    /// archive. The language name is already on the stack at each of them.
    pub message_language: [usize; 3],
    /// The format string those three push, which the trampolines push again.
    pub message_format: usize,

    /// `__thiscall(transition)` - the per-frame update of the door transition.
    /// Three instructions, twelve bytes, before it touches anything.
    pub door_update: usize,
    /// The instruction after those three.
    pub door_update_continue: usize,

    /// The four fade durations, each the immediate of a `mov [esp], imm32`.
    pub door_fade_screen_out: usize,
    pub door_fade_audio_out: usize,
    pub door_fade_in: usize,
    pub door_fade_final: usize,
}

/// The addresses of `MasterRelease Jan 28 2025 16:45:59`.
pub fn jan_2025() -> (r: Addresses)
    ensures
        r == jan_2025_spec(),
{
    Addresses {
    bag_count_empty: 0x004D_B480,
    bag_first_empty: 0x004D_B440,
    two_slot_first_empty_callers: [0x004D_B56D, 0x004D_B097],
    bag_find_item: 0x004D_B130,
    bag_find_item_continue: 0x004D_B135,

    player_bag: 0x004D_C8E0,
    partner_bag: 0x004D_CA00,
    bag_by_id: 0x004D_C8B0,

    character_holder: 0x00DC_BF3C,
    played_character: 0x004E_C780,
    partner_character: 0x0096_CD30,
    character_id: 0x0052_2AF0,

    draw_panels: 0x005E_7240,
    draw_panels_continue: 0x005E_7246,

    door_duration: 0x0055_2A13,
    door_duration_tail: 0x0055_2A21,
    door_duration_modelless: 0x0055_2A46,
    door_duration_rearm: 0x0055_255C,
    door_motion_wait: 0x0055_2630,

    typewriter: 0x0057_A9D0,
    typewriter_continue: 0x0057_A9D5,

    typewriter_has_ribbon: 0x0057_AD69,
    typewriter_no_ribbon: 0x0057_ADA4,
    typewriter_choice: 0x0057_ADF7,
    typewriter_open_screen: 0x0057_AE36,

    inventory_open_animation: 0x005E_1EBF,
    play_menu_animation: 0x005D_C170,
    inventory_menu_start: 0x005E_1EF6,
    inventory_change_character: 0x005E_2F3A,
    inventory_menu_close: 0x005D_8D03,

    partner_half_valid: 0x005E_3B9E,
    partner_half_continue: 0x005E_3BA8,
    partner_half_kick: 0x005E_50F7,

    save_slot: 0x0061_36D9,
    load_slot: 0x0061_27E1,
    new_game: 0x0041_240C,

    set_room_phase: 0x0061_0E00,
    prepare_inventory: 0x005D_7550,
    inventory_holder: 0x00DC_EBD0,

    message_language: [0x0040_847E, 0x005D_67F1, 0x005D_6B61],
    message_format: 0x00CB_5DDC,

    door_update: 0x0055_2300,
    door_update_continue: 0x0055_230C,

    door_fade_screen_out: 0x0055_236D,
    door_fade_audio_out: 0x0055_2380,
    door_fade_in: 0x0055_24BC,
    door_fade_final: 0x0055_25AB,
    }
}

pub open spec fn jan_2025_spec() -> Addresses {
    Addresses {
    bag_count_empty: 0x004D_B480,
    bag_first_empty: 0x004D_B440,
    two_slot_first_empty_callers: [0x004D_B56D, 0x004D_B097],
    bag_find_item: 0x004D_B130,
    bag_find_item_continue: 0x004D_B135,

    player_bag: 0x004D_C8E0,
    partner_bag: 0x004D_CA00,
    bag_by_id: 0x004D_C8B0,

    character_holder: 0x00DC_BF3C,
    played_character: 0x004E_C780,
    partner_character: 0x0096_CD30,
    character_id: 0x0052_2AF0,

    draw_panels: 0x005E_7240,
    draw_panels_continue: 0x005E_7246,

    door_duration: 0x0055_2A13,
    door_duration_tail: 0x0055_2A21,
    door_duration_modelless: 0x0055_2A46,
    door_duration_rearm: 0x0055_255C,
    door_motion_wait: 0x0055_2630,

    typewriter: 0x0057_A9D0,
    typewriter_continue: 0x0057_A9D5,

    typewriter_has_ribbon: 0x0057_AD69,
    typewriter_no_ribbon: 0x0057_ADA4,
    typewriter_choice: 0x0057_ADF7,
    typewriter_open_screen: 0x0057_AE36,

    inventory_open_animation: 0x005E_1EBF,
    play_menu_animation: 0x005D_C170,
    inventory_menu_start: 0x005E_1EF6,
    inventory_change_character: 0x005E_2F3A,
    inventory_menu_close: 0x005D_8D03,

    partner_half_valid: 0x005E_3B9E,
    partner_half_continue: 0x005E_3BA8,
    partner_half_kick: 0x005E_50F7,

    save_slot: 0x0061_36D9,
    load_slot: 0x0061_27E1,
    new_game: 0x0041_240C,

    set_room_phase: 0x0061_0E00,
    prepare_inventory: 0x005D_7550,
    inventory_holder: 0x00DC_EBD0,

    message_language: [0x0040_847E, 0x005D_67F1, 0x005D_6B61],
    message_format: 0x00CB_5DDC,

    door_update: 0x0055_2300,
    door_update_continue: 0x0055_230C,

    door_fade_screen_out: 0x0055_236D,
    door_fade_audio_out: 0x0055_2380,
    door_fade_in: 0x0055_24BC,
    door_fade_final: 0x0055_25AB,
    }
}

/// The addresses verified for `build`. Nothing is patched unless the build
/// matches exactly: a jump written into whatever sits at an address in some
/// other build corrupts a save.
pub fn for_build(build: &Build) -> (r: Option<Addresses>)
    ensures
        r == if build.stamp@ == SUPPORTED@ {
            Some(jan_2025_spec())
        } else {
            None
        },
{
    if build.is_supported() {
        Some(jan_2025())
    } else {
        None
    }
}

} // verus!
