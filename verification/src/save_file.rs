//! The side file that holds what the game's save has no room for.
//!
//! The game's own save keeps the six slots each character can see. Everything
//! else this library adds, the slots beyond the six and the item box, is kept
//! in a file beside it, one record per save slot.
//!
//! ```text
//! offset  size  field
//!    +0      6  "RE0INV"
//!    +6      2  format version, u16
//!    +8      4  number of slot records, u32
//!   +12      4  CRC32 of everything after this field
//!   +16      N  the records
//! ```
//!
//! A record is the save slot (one byte), the number of stores (one byte), the
//! number of items in the box (u16), the box's items, then the stores. A store
//! is the bag's offset inside its owner (u32), the window position when it was
//! written (u16), the number of items (u16) and the items. An item is two
//! little-endian `i32`: the id, then the count.
//!
//! Reading refuses anything it does not fully understand: restoring half a
//! record would put items in the wrong slots without the player knowing.

use vstd::prelude::*;

use crate::bytes::{
    i32_bytes, le_u16, le_u32, lemma_i32_round_trip, lemma_u16_round_trip, lemma_u32_round_trip,
    put_i32, put_u16, put_u32, read_i32, read_u16, read_u32, u16_bytes, u32_bytes,
};
use crate::inventory::{item_at, Item};

verus! {

/// The version of the layout this library writes and reads.
pub const FORMAT_VERSION: u16 = 1;

/// Bytes before the first record.
pub const HEADER: usize = 16;

/// Most stores one record can hold: the count is a single byte.
pub const MAX_STORES: usize = 255;

/// One character's inventory, and where its window was.
#[derive(Clone, Debug, Default, PartialEq)]
pub struct StoreData {
    /// Which of the two inline bags this is, `0x20` or `0x60`.
    pub offset: u32,
    pub position: u16,
    pub items: Vec<Item>,
}

/// Everything one save slot holds beyond what the game records.
#[derive(Clone, Debug, Default, PartialEq)]
pub struct SlotData {
    pub slot: u8,
    pub box_items: Vec<Item>,
    pub stores: Vec<StoreData>,
}

/// Every save slot this file knows about.
#[derive(Clone, Debug, Default)]
pub struct SaveFile {
    pub slots: Vec<SlotData>,
}

/// A store as a value.
pub struct StoreView {
    pub offset: u32,
    pub position: u16,
    pub items: Seq<Item>,
}

/// A slot record as a value.
pub struct SlotView {
    pub slot: u8,
    pub box_items: Seq<Item>,
    pub stores: Seq<StoreView>,
}

impl View for StoreData {
    type V = StoreView;

    open spec fn view(&self) -> StoreView {
        StoreView { offset: self.offset, position: self.position, items: self.items@ }
    }
}

impl View for SlotData {
    type V = SlotView;

    open spec fn view(&self) -> SlotView {
        SlotView {
            slot: self.slot,
            box_items: self.box_items@,
            stores: self.stores@.map_values(|s: StoreData| s@),
        }
    }
}

impl View for SaveFile {
    type V = Seq<SlotView>;

    open spec fn view(&self) -> Seq<SlotView> {
        self.slots@.map_values(|r: SlotData| r@)
    }
}

/// Why a side file was refused.
#[derive(Clone, Copy, Debug, PartialEq, Eq, Structural)]
pub enum DecodeError {
    /// Shorter than the header.
    TooShort,
    /// The first six bytes are not the magic.
    Foreign,
    /// A format version this library does not read.
    Version(u16),
    /// More records than the body could hold at four bytes each.
    TooManyRecords { count: u32, body_len: usize },
    /// The body does not match the checksum in the header.
    Checksum { actual: u32, expected: u32 },
    /// A record runs past the end of the file.
    Truncated,
    /// The records the header counts end before the body does: the file
    /// holds more than it accounts for.
    TrailingBytes { unread: usize },
}

// --- The layout, as values ---

/// "RE0INV".
pub open spec fn magic() -> Seq<u8> {
    seq![0x52u8, 0x45u8, 0x30u8, 0x49u8, 0x4Eu8, 0x56u8]
}

pub open spec fn item_bytes(item: Item) -> Seq<u8> {
    i32_bytes(item.id) + i32_bytes(item.count)
}

pub open spec fn items_bytes(items: Seq<Item>) -> Seq<u8>
    decreases items.len(),
{
    if items.len() == 0 {
        seq![]
    } else {
        items_bytes(items.drop_last()) + item_bytes(items.last())
    }
}

/// A store as written. The item count is a `u16`, so a longer list has its
/// count truncated while every item is still written.
pub open spec fn store_bytes(s: StoreView) -> Seq<u8> {
    u32_bytes(s.offset) + u16_bytes(s.position) + u16_bytes(s.items.len() as u16) + items_bytes(
        s.items,
    )
}

pub open spec fn stores_bytes(stores: Seq<StoreView>) -> Seq<u8>
    decreases stores.len(),
{
    if stores.len() == 0 {
        seq![]
    } else {
        stores_bytes(stores.drop_last()) + store_bytes(stores.last())
    }
}

/// The stores a record keeps when written: at most `MAX_STORES`, so that what
/// follows the one-byte count agrees with it.
pub open spec fn kept_stores(r: SlotView) -> Seq<StoreView> {
    if r.stores.len() <= MAX_STORES {
        r.stores
    } else {
        r.stores.take(MAX_STORES as int)
    }
}

/// A record as it reads back.
pub open spec fn kept(r: SlotView) -> SlotView {
    SlotView { slot: r.slot, box_items: r.box_items, stores: kept_stores(r) }
}

pub open spec fn record_bytes(r: SlotView) -> Seq<u8> {
    seq![r.slot, kept_stores(r).len() as u8] + u16_bytes(r.box_items.len() as u16) + items_bytes(
        r.box_items,
    ) + stores_bytes(kept_stores(r))
}

pub open spec fn records_bytes(records: Seq<SlotView>) -> Seq<u8>
    decreases records.len(),
{
    if records.len() == 0 {
        seq![]
    } else {
        records_bytes(records.drop_last()) + record_bytes(records.last())
    }
}

/// A whole side file.
pub open spec fn file_bytes(records: Seq<SlotView>) -> Seq<u8> {
    magic() + u16_bytes(FORMAT_VERSION) + u32_bytes(records.len() as u32) + u32_bytes(
        crc32_of(records_bytes(records)),
    ) + records_bytes(records)
}

// --- CRC32, the polynomial zip and png use ---

/// One shift of the reflected register.
pub open spec fn crc_shift(crc: u32) -> u32 {
    if crc & 1 == 1 {
        (crc >> 1) ^ 0xEDB8_8320u32
    } else {
        crc >> 1
    }
}

pub open spec fn crc_shifts(crc: u32, n: nat) -> u32
    decreases n,
{
    if n == 0 {
        crc
    } else {
        crc_shifts(crc_shift(crc), (n - 1) as nat)
    }
}

/// The register after one more byte.
pub open spec fn crc_step(crc: u32, byte: u8) -> u32 {
    crc_shifts(crc ^ (byte as u32), 8)
}

/// The register after all of `bytes`, starting from all ones.
pub open spec fn crc_register(bytes: Seq<u8>) -> u32
    decreases bytes.len(),
{
    if bytes.len() == 0 {
        0xFFFF_FFFFu32
    } else {
        crc_step(crc_register(bytes.drop_last()), bytes.last())
    }
}

pub open spec fn crc32_of(bytes: Seq<u8>) -> u32 {
    !crc_register(bytes)
}

/// CRC32 of `bytes`.
pub fn crc32(bytes: &[u8]) -> (r: u32)
    ensures
        r == crc32_of(bytes@),
{
    let mut crc: u32 = 0xFFFF_FFFF;
    let mut i: usize = 0;
    while i < bytes.len()
        invariant
            i <= bytes@.len(),
            crc == crc_register(bytes@.take(i as int)),
        decreases bytes@.len() - i,
    {
        assert(bytes@.take(i + 1).drop_last() =~= bytes@.take(i as int));
        let start = crc ^ (bytes[i] as u32);
        crc = start;
        let mut round: usize = 0;
        while round < 8
            invariant
                round <= 8,
                crc_shifts(crc, (8 - round) as nat) == crc_shifts(start, 8),
            decreases 8 - round,
        {
            crc = if crc & 1 == 1 {
                (crc >> 1) ^ 0xEDB8_8320
            } else {
                crc >> 1
            };
            round += 1;
        }
        i += 1;
    }
    assert(bytes@.take(bytes@.len() as int) =~= bytes@);
    !crc
}

// --- Writing ---

fn put_magic(out: &mut Vec<u8>)
    ensures
        final(out)@ == old(out)@ + magic(),
{
    out.push(0x52);
    out.push(0x45);
    out.push(0x30);
    out.push(0x49);
    out.push(0x4E);
    out.push(0x56);
    assert(final(out)@ =~= old(out)@ + magic());
}

fn put_items(out: &mut Vec<u8>, items: &Vec<Item>)
    ensures
        final(out)@ == old(out)@ + items_bytes(items@),
{
    let mut i: usize = 0;
    while i < items.len()
        invariant
            i <= items@.len(),
            out@ == old(out)@ + items_bytes(items@.take(i as int)),
        decreases items@.len() - i,
    {
        let ghost before = out@;
        assert(items@.take(i + 1).drop_last() =~= items@.take(i as int));
        put_i32(out, items[i].id);
        put_i32(out, items[i].count);
        assert(out@ =~= before + item_bytes(items@[i as int]));
        i += 1;
    }
    assert(items@.take(items@.len() as int) =~= items@);
}

fn put_store(out: &mut Vec<u8>, store: &StoreData)
    ensures
        final(out)@ == old(out)@ + store_bytes(store@),
{
    let ghost start = out@;
    put_u32(out, store.offset);
    put_u16(out, store.position);
    put_u16(out, store.items.len() as u16);
    put_items(out, &store.items);
    assert(out@ =~= start + store_bytes(store@));
}

fn put_record(out: &mut Vec<u8>, record: &SlotData)
    ensures
        final(out)@ == old(out)@ + record_bytes(record@),
{
    let ghost start = out@;
    let ghost r = record@;
    let count: usize = if record.stores.len() < MAX_STORES {
        record.stores.len()
    } else {
        MAX_STORES
    };
    out.push(record.slot);
    out.push(count as u8);
    put_u16(out, record.box_items.len() as u16);
    put_items(out, &record.box_items);
    let ghost mid = out@;
    assert(kept_stores(r).len() == count);
    let mut i: usize = 0;
    while i < count
        invariant
            i <= count,
            count <= record.stores@.len(),
            count == kept_stores(r).len(),
            r == record@,
            out@ == mid + stores_bytes(kept_stores(r).take(i as int)),
        decreases count - i,
    {
        assert(kept_stores(r).take(i + 1).drop_last() =~= kept_stores(r).take(i as int));
        assert(kept_stores(r)[i as int] == record.stores@[i as int]@);
        put_store(out, &record.stores[i]);
        i += 1;
    }
    assert(kept_stores(r).take(count as int) =~= kept_stores(r));
    assert(out@ =~= start + record_bytes(r));
}

impl SaveFile {
    /// The bytes of the side file.
    pub fn encode(&self) -> (r: Vec<u8>)
        ensures
            r@ == file_bytes(self@),
    {
        let mut body: Vec<u8> = Vec::new();
        let mut i: usize = 0;
        while i < self.slots.len()
            invariant
                i <= self.slots@.len(),
                body@ == records_bytes(self@.take(i as int)),
            decreases self.slots@.len() - i,
        {
            assert(self@.take(i + 1).drop_last() =~= self@.take(i as int));
            put_record(&mut body, &self.slots[i]);
            i += 1;
        }
        assert(self@.take(self.slots@.len() as int) =~= self@);
        let mut out: Vec<u8> = Vec::with_capacity(HEADER);
        put_magic(&mut out);
        put_u16(&mut out, FORMAT_VERSION);
        put_u32(&mut out, self.slots.len() as u32);
        put_u32(&mut out, crc32(body.as_slice()));
        let mut k: usize = 0;
        let ghost head = out@;
        while k < body.len()
            invariant
                k <= body@.len(),
                out@ == head + body@.take(k as int),
            decreases body@.len() - k,
        {
            out.push(body[k]);
            k += 1;
            assert(out@ =~= head + body@.take(k as int));
        }
        assert(body@.take(body@.len() as int) =~= body@);
        assert(out@ =~= file_bytes(self@));
        out
    }
}

// --- Finding a record ---

/// Index of the first record for `slot`.
pub open spec fn index_of_slot(records: Seq<SlotData>, slot: u8) -> Option<int>
    decreases records.len(),
{
    if records.len() == 0 {
        None
    } else {
        match index_of_slot(records.drop_last(), slot) {
            Some(i) => Some(i),
            None => if records.last().slot == slot {
                Some(records.len() - 1)
            } else {
                None
            },
        }
    }
}

proof fn lemma_index_of_slot_prefix(records: Seq<SlotData>, slot: u8, k: int)
    requires
        0 <= k <= records.len(),
        index_of_slot(records.take(k), slot) is Some,
    ensures
        index_of_slot(records, slot) == index_of_slot(records.take(k), slot),
    decreases records.len() - k,
{
    if k < records.len() {
        assert(records.take(k + 1).drop_last() =~= records.take(k));
        lemma_index_of_slot_prefix(records, slot, k + 1);
    } else {
        assert(records.take(k) =~= records);
    }
}

pub proof fn lemma_index_of_slot_bounds(records: Seq<SlotData>, slot: u8)
    ensures
        match index_of_slot(records, slot) {
            Some(i) => 0 <= i < records.len() && records[i].slot == slot && forall|j: int|
                0 <= j < i ==> records[j].slot != slot,
            None => forall|j: int| 0 <= j < records.len() ==> records[j].slot != slot,
        },
    decreases records.len(),
{
    if records.len() > 0 {
        let init = records.drop_last();
        lemma_index_of_slot_bounds(init, slot);
        assert(forall|j: int| #![trigger records[j]] 0 <= j < init.len() ==> records[j] == init[j]);
    }
}

/// The records after `put(data)`: the first record for its slot replaced, or
/// `data` added at the end when there is none.
pub open spec fn with_record(records: Seq<SlotData>, data: SlotData) -> Seq<SlotData> {
    match index_of_slot(records, data.slot) {
        Some(i) => records.update(i, data),
        None => records.push(data),
    }
}

/// The records after `take(slot)`: the first record for the slot removed, the
/// last record moved into its place.
pub open spec fn without_record(records: Seq<SlotData>, slot: u8) -> Seq<SlotData> {
    match index_of_slot(records, slot) {
        Some(i) => records.update(i, records.last()).drop_last(),
        None => records,
    }
}

/// No two records are for the same save slot.
pub open spec fn unique_slots(records: Seq<SlotData>) -> bool {
    forall|i: int, j: int|
        0 <= i < j < records.len() ==> (#[trigger] records[i]).slot != (#[trigger] records[j]).slot
}

/// After `put(data)`, looking up its slot finds `data`, and every other slot
/// finds the record it found before.
pub proof fn law_put_then_get(records: Seq<SlotData>, data: SlotData, other: u8)
    requires
        other != data.slot,
    ensures
        ({
            let after = with_record(records, data);
            &&& index_of_slot(after, data.slot) matches Some(i) && after[i] == data
            &&& match index_of_slot(records, other) {
                Some(k) => index_of_slot(after, other) == Some(k) && after[k] == records[k],
                None => index_of_slot(after, other) is None,
            }
        }),
{
    let after = with_record(records, data);
    lemma_index_of_slot_bounds(records, data.slot);
    lemma_index_of_slot_bounds(records, other);
    lemma_index_of_slot_bounds(after, data.slot);
    lemma_index_of_slot_bounds(after, other);
    let at = match index_of_slot(records, data.slot) {
        Some(i) => i,
        None => records.len() as int,
    };
    assert(after[at] == data);
    assert(forall|j: int| 0 <= j < after.len() && j != at ==> #[trigger] after[j] == records[j]);
    if let Some(i) = index_of_slot(after, data.slot) {
        assert(i == at) by {
            if i < at {
                assert(after[i] == records[i]);
            }
        }
    }
    if let Some(k) = index_of_slot(records, other) {
        assert(after[k] == records[k]);
        if let Some(m) = index_of_slot(after, other) {
            assert(m == k) by {
                if m < k {
                    assert(after[m] == records[m] || m == at);
                }
            }
        }
    }
}

/// `put` never gives a save slot a second record.
pub proof fn law_put_keeps_slots_unique(records: Seq<SlotData>, data: SlotData)
    requires
        unique_slots(records),
    ensures
        unique_slots(with_record(records, data)),
        with_record(records, data).len() == records.len() + if index_of_slot(records, data.slot) is Some {
            0int
        } else {
            1int
        },
{
    lemma_index_of_slot_bounds(records, data.slot);
    let after = with_record(records, data);
    assert forall|i: int, j: int| 0 <= i < j < after.len() implies (#[trigger] after[i]).slot
        != (#[trigger] after[j]).slot by {
        if index_of_slot(records, data.slot) is None {
            if j == records.len() {
                assert(after[i] == records[i]);
            } else {
                assert(after[i] == records[i] && after[j] == records[j]);
            }
        }
    }
}

/// When no slot has two records, after `take(slot)` the slot has none, and
/// every other slot still finds the record it found before.
pub proof fn law_take_then_get(records: Seq<SlotData>, slot: u8, other: u8)
    requires
        unique_slots(records),
        other != slot,
    ensures
        ({
            let after = without_record(records, slot);
            &&& index_of_slot(after, slot) is None
            &&& match index_of_slot(records, other) {
                Some(k) => index_of_slot(after, other) matches Some(m) && after[m] == records[k],
                None => index_of_slot(after, other) is None,
            }
        }),
{
    let after = without_record(records, slot);
    lemma_index_of_slot_bounds(records, slot);
    lemma_index_of_slot_bounds(records, other);
    lemma_index_of_slot_bounds(after, slot);
    lemma_index_of_slot_bounds(after, other);
    if let Some(i) = index_of_slot(records, slot) {
        let last = records.len() - 1;
        assert forall|j: int| 0 <= j < after.len() implies (#[trigger] after[j]).slot != slot by {
            if j == i {
                assert(after[j] == records[last]);
            } else {
                assert(after[j] == records[j]);
            }
        }
        if let Some(k) = index_of_slot(records, other) {
            let m = if k == last { i } else { k };
            assert(after[m] == records[k]);
            assert(after[m].slot == other);
        } else {
            assert forall|j: int| 0 <= j < after.len() implies (#[trigger] after[j]).slot != other by {
                if j == i {
                    assert(after[j] == records[last]);
                } else {
                    assert(after[j] == records[j]);
                }
            }
        }
    }
}

/// Index of the first record for `slot`, scanning from the front.
fn find_slot(records: &Vec<SlotData>, slot: u8) -> (r: Option<usize>)
    ensures
        match r {
            Some(i) => index_of_slot(records@, slot) == Some(i as int),
            None => index_of_slot(records@, slot) is None,
        },
        r matches Some(i) ==> i < records@.len(),
{
    let mut i: usize = 0;
    while i < records.len()
        invariant
            i <= records@.len(),
            index_of_slot(records@.take(i as int), slot) is None,
        decreases records@.len() - i,
    {
        assert(records@.take(i + 1).drop_last() =~= records@.take(i as int));
        if records[i].slot == slot {
            proof {
                lemma_index_of_slot_prefix(records@, slot, i + 1);
            }
            return Some(i);
        }
        i += 1;
    }
    assert(records@.take(records@.len() as int) =~= records@);
    None
}

impl StoreData {
    /// The `count` slots the game would have saved, given where the window
    /// was: the items from `position` on, and empty slots past the end.
    pub fn visible(&self, count: usize) -> (r: Vec<Item>)
        ensures
            r@.len() == count,
            forall|k: int|
                0 <= k < count ==> #[trigger] r@[k] == if self.position + k < self.items@.len() {
                    self.items@[self.position + k]
                } else {
                    Item::spec_empty()
                },
    {
        let mut out: Vec<Item> = Vec::new();
        let start = self.position as usize;
        let mut k: usize = 0;
        while k < count
            invariant
                k <= count,
                start == self.position,
                out@.len() == k,
                forall|j: int|
                    0 <= j < k ==> #[trigger] out@[j] == if start + j < self.items@.len() {
                        self.items@[start + j]
                    } else {
                        Item::spec_empty()
                    },
            decreases count - k,
        {
            if start < self.items.len() && k < self.items.len() - start {
                out.push(self.items[start + k]);
            } else {
                out.push(Item::empty());
            }
            k += 1;
        }
        out
    }
}

impl SaveFile {
    /// The record for `slot`, if there is one.
    pub fn get(&self, slot: u8) -> (r: Option<&SlotData>)
        ensures
            r == match index_of_slot(self.slots@, slot) {
                Some(i) => Some(&self.slots@[i]),
                None => None,
            },
    {
        match find_slot(&self.slots, slot) {
            Some(i) => Some(&self.slots[i]),
            None => None,
        }
    }

    /// Takes one slot's record out, so its contents can be moved rather than
    /// cloned. The last record takes its place.
    pub fn take(&mut self, slot: u8) -> (r: Option<SlotData>)
        ensures
            final(self).slots@ == without_record(old(self).slots@, slot),
            r == match index_of_slot(old(self).slots@, slot) {
                Some(i) => Some(old(self).slots@[i]),
                None => None,
            },
    {
        match find_slot(&self.slots, slot) {
            Some(i) => Some(self.slots.swap_remove(i)),
            None => None,
        }
    }

    /// Replaces one slot's record, adding it if it is new.
    pub fn put(&mut self, data: SlotData)
        ensures
            final(self).slots@ == with_record(old(self).slots@, data),
    {
        match find_slot(&self.slots, data.slot) {
            Some(i) => self.slots.set(i, data),
            None => self.slots.push(data),
        }
    }
}

// --- Reading ---

/// `n` items from the front of `b`.
pub open spec fn parse_items(b: Seq<u8>, n: nat) -> Seq<Item> {
    Seq::new(n, |k: int| item_at(b, 8 * k))
}

/// A store from the front of `b`, and the bytes it took.
pub open spec fn parse_store(b: Seq<u8>) -> Option<(StoreView, int)> {
    if b.len() < 8 {
        None
    } else {
        let n = le_u16(b, 6) as int;
        if b.len() < 8 + 8 * n {
            None
        } else {
            Some(
                (
                    StoreView {
                        offset: le_u32(b, 0),
                        position: le_u16(b, 4),
                        items: parse_items(b.skip(8), n as nat),
                    },
                    8 + 8 * n,
                ),
            )
        }
    }
}

/// `k` stores from the front of `b`, and the bytes they took.
pub open spec fn parse_stores(b: Seq<u8>, k: nat) -> Option<(Seq<StoreView>, int)>
    decreases k,
{
    if k == 0 {
        Some((seq![], 0))
    } else {
        match parse_stores(b, (k - 1) as nat) {
            None => None,
            Some((stores, at)) => match parse_store(b.skip(at)) {
                None => None,
                Some((store, n)) => Some((stores.push(store), at + n)),
            },
        }
    }
}

/// A record from the front of `b`, and the bytes it took.
pub open spec fn parse_record(b: Seq<u8>) -> Option<(SlotView, int)> {
    if b.len() < 4 {
        None
    } else {
        let n = le_u16(b, 2) as int;
        if b.len() < 4 + 8 * n {
            None
        } else {
            match parse_stores(b.skip(4 + 8 * n), b[1] as nat) {
                None => None,
                Some((stores, m)) => Some(
                    (
                        SlotView {
                            slot: b[0],
                            box_items: parse_items(b.skip(4), n as nat),
                            stores,
                        },
                        4 + 8 * n + m,
                    ),
                ),
            }
        }
    }
}

/// `k` records from the front of `b`, and the bytes they took.
pub open spec fn parse_records(b: Seq<u8>, k: nat) -> Option<(Seq<SlotView>, int)>
    decreases k,
{
    if k == 0 {
        Some((seq![], 0))
    } else {
        match parse_records(b, (k - 1) as nat) {
            None => None,
            Some((records, at)) => match parse_record(b.skip(at)) {
                None => None,
                Some((record, n)) => Some((records.push(record), at + n)),
            },
        }
    }
}

pub open spec fn has_magic(b: Seq<u8>) -> bool {
    &&& b[0] == 0x52
    &&& b[1] == 0x45
    &&& b[2] == 0x30
    &&& b[3] == 0x49
    &&& b[4] == 0x4E
    &&& b[5] == 0x56
}

/// What reading `b` gives: the records, or why it was refused.
pub open spec fn decoded(b: Seq<u8>) -> Result<Seq<SlotView>, DecodeError> {
    if b.len() < HEADER {
        Err(DecodeError::TooShort)
    } else if !has_magic(b) {
        Err(DecodeError::Foreign)
    } else if le_u16(b, 6) != FORMAT_VERSION {
        Err(DecodeError::Version(le_u16(b, 6)))
    } else {
        let count = le_u32(b, 8);
        let body = b.skip(HEADER as int);
        if count > body.len() / 4 {
            Err(DecodeError::TooManyRecords { count, body_len: body.len() as usize })
        } else if crc32_of(body) != le_u32(b, 12) {
            Err(DecodeError::Checksum { actual: crc32_of(body), expected: le_u32(b, 12) })
        } else {
            match parse_records(body, count as nat) {
                Some((records, used)) => if used == body.len() {
                    Ok(records)
                } else {
                    Err(DecodeError::TrailingBytes { unread: (body.len() - used) as usize })
                },
                None => Err(DecodeError::Truncated),
            }
        }
    }
}

proof fn lemma_reads_after_skip(b: Seq<u8>, at: int, k: int)
    requires
        0 <= at,
        0 <= k,
        at + k + 2 <= b.len(),
    ensures
        b.skip(at)[k] == b[at + k],
        le_u16(b.skip(at), k) == le_u16(b, at + k),
        at + k + 4 <= b.len() ==> le_u32(b.skip(at), k) == le_u32(b, at + k),
{
    let s = b.skip(at);
    assert(s[k] == b[at + k]);
    assert(s[k + 1] == b[at + k + 1]);
    if at + k + 4 <= b.len() {
        assert(s[k + 2] == b[at + k + 2]);
        assert(s[k + 3] == b[at + k + 3]);
    }
}

proof fn lemma_stores_stay_none(b: Seq<u8>, k: nat, m: nat)
    requires
        k <= m,
        parse_stores(b, k) is None,
    ensures
        parse_stores(b, m) is None,
    decreases m - k,
{
    if k < m {
        lemma_stores_stay_none(b, k, (m - 1) as nat);
    }
}

proof fn lemma_records_stay_none(b: Seq<u8>, k: nat, m: nat)
    requires
        k <= m,
        parse_records(b, k) is None,
    ensures
        parse_records(b, m) is None,
    decreases m - k,
{
    if k < m {
        lemma_records_stay_none(b, k, (m - 1) as nat);
    }
}

/// `count` items starting at `at`.
fn take_items(body: &[u8], at: usize, count: usize) -> (r: Vec<Item>)
    requires
        at + 8 * count <= body@.len(),
    ensures
        r@ == parse_items(body@.skip(at as int), count as nat),
{
    let mut items: Vec<Item> = Vec::new();
    let len = body.len();
    let mut k: usize = 0;
    while k < count
        invariant
            k <= count,
            len == body@.len(),
            at + 8 * count <= len,
            items@ =~= parse_items(body@.skip(at as int), k as nat),
        decreases count - k,
    {
        let base = at + 8 * k;
        proof {
            lemma_reads_after_skip(body@, at as int, 8 * k);
            lemma_reads_after_skip(body@, at as int, 8 * k + 4);
        }
        items.push(Item { id: read_i32(body, base), count: read_i32(body, base + 4) });
        k += 1;
    }
    items
}

/// The store starting at `at`, and where the next thing starts.
fn take_store(body: &[u8], at: usize) -> (r: Option<(StoreData, usize)>)
    requires
        at <= body@.len(),
    ensures
        match r {
            None => parse_store(body@.skip(at as int)) is None,
            Some((store, next)) => {
                &&& at <= next <= body@.len()
                &&& parse_store(body@.skip(at as int)) == Some((store@, next - at))
            },
        },
{
    let ghost b = body@.skip(at as int);
    let rest = body.len() - at;
    if rest < 8 {
        return None;
    }
    proof {
        lemma_reads_after_skip(body@, at as int, 0);
        lemma_reads_after_skip(body@, at as int, 4);
        lemma_reads_after_skip(body@, at as int, 6);
    }
    let offset = read_u32(body, at);
    let position = read_u16(body, at + 4);
    let n = read_u16(body, at + 6) as usize;
    if rest - 8 < 8 * n {
        return None;
    }
    let items = take_items(body, at + 8, n);
    assert(b.skip(8) =~= body@.skip(at + 8));
    let store = StoreData { offset, position, items };
    assert(store@.items =~= parse_items(b.skip(8), n as nat));
    Some((store, at + 8 + 8 * n))
}

/// The record starting at `at`, and where the next one starts.
fn take_record(body: &[u8], at: usize) -> (r: Option<(SlotData, usize)>)
    requires
        at <= body@.len(),
    ensures
        match r {
            None => parse_record(body@.skip(at as int)) is None,
            Some((record, next)) => {
                &&& at <= next <= body@.len()
                &&& parse_record(body@.skip(at as int)) == Some((record@, next - at))
            },
        },
{
    let ghost b = body@.skip(at as int);
    let rest = body.len() - at;
    if rest < 4 {
        return None;
    }
    proof {
        lemma_reads_after_skip(body@, at as int, 0);
        lemma_reads_after_skip(body@, at as int, 2);
        assert(b[1] == body@[at + 1]);
    }
    let slot = body[at];
    let count = body[at + 1] as usize;
    let n = read_u16(body, at + 2) as usize;
    if rest - 4 < 8 * n {
        return None;
    }
    let box_items = take_items(body, at + 4, n);
    assert(b.skip(4) =~= body@.skip(at + 4));
    let start = at + 4 + 8 * n;
    let ghost sb = b.skip(4 + 8 * n);
    assert(sb =~= body@.skip(start as int));
    let mut stores: Vec<StoreData> = Vec::new();
    let mut p = start;
    let mut i: usize = 0;
    while i < count
        invariant
            i <= count,
            start <= p <= body@.len(),
            sb == body@.skip(start as int),
            b == body@.skip(at as int),
            sb == b.skip(4 + 8 * n),
            b.len() >= 4 + 8 * n,
            le_u16(b, 2) == n,
            b[1] == count,
            b[0] == slot,
            box_items@ == parse_items(b.skip(4), n as nat),
            parse_stores(sb, i as nat) == Some((stores@.map_values(|s: StoreData| s@), p - start)),
        decreases count - i,
    {
        assert(sb.skip(p - start) =~= body@.skip(p as int));
        match take_store(body, p) {
            None => {
                proof {
                    assert(parse_stores(sb, (i + 1) as nat) is None);
                    lemma_stores_stay_none(sb, (i + 1) as nat, count as nat);
                }
                return None;
            },
            Some((store, next)) => {
                let ghost before = stores@;
                stores.push(store);
                assert(stores@.map_values(|s: StoreData| s@) =~= before.map_values(
                    |s: StoreData| s@,
                ).push(store@));
                p = next;
            },
        }
        i += 1;
    }
    let record = SlotData { slot, box_items, stores };
    assert(record@.box_items =~= parse_items(b.skip(4), n as nat));
    Some((record, p))
}

impl SaveFile {
    /// Reads a side file, refusing anything it does not fully understand.
    /// Every failure is an error rather than a partial result: restoring half
    /// a record would put items in the wrong slots.
    pub fn decode(bytes: &[u8]) -> (r: Result<SaveFile, DecodeError>)
        ensures
            match r {
                Ok(file) => decoded(bytes@) == Ok::<Seq<SlotView>, DecodeError>(file@),
                Err(e) => decoded(bytes@) == Err::<Seq<SlotView>, DecodeError>(e),
            },
    {
        if bytes.len() < HEADER {
            return Err(DecodeError::TooShort);
        }
        if !(bytes[0] == 0x52 && bytes[1] == 0x45 && bytes[2] == 0x30 && bytes[3] == 0x49
            && bytes[4] == 0x4E && bytes[5] == 0x56) {
            return Err(DecodeError::Foreign);
        }
        let version = read_u16(bytes, 6);
        if version != FORMAT_VERSION {
            return Err(DecodeError::Version(version));
        }
        let count = read_u32(bytes, 8);
        let expected = read_u32(bytes, 12);
        let (_, body) = bytes.split_at(HEADER);
        assert(body@ =~= bytes@.skip(HEADER as int));
        if count as usize > body.len() / 4 {
            return Err(DecodeError::TooManyRecords { count, body_len: body.len() });
        }
        let actual = crc32(body);
        if actual != expected {
            return Err(DecodeError::Checksum { actual, expected });
        }
        let mut slots: Vec<SlotData> = Vec::new();
        let mut at: usize = 0;
        let mut i: usize = 0;
        let total = count as usize;
        while i < total
            invariant
                i <= total,
                at <= body@.len(),
                total == count,
                bytes@.len() >= HEADER,
                has_magic(bytes@),
                le_u16(bytes@, 6) == FORMAT_VERSION,
                le_u32(bytes@, 8) == count,
                body@ == bytes@.skip(HEADER as int),
                count <= body@.len() / 4,
                crc32_of(body@) == le_u32(bytes@, 12),
                parse_records(body@, i as nat) == Some((slots@.map_values(|r: SlotData| r@), at as int)),
            decreases total - i,
        {
            assert(body@.skip(at as int) == body@.skip(at as int));
            match take_record(body, at) {
                None => {
                    proof {
                        assert(parse_records(body@, (i + 1) as nat) is None);
                        lemma_records_stay_none(body@, (i + 1) as nat, total as nat);
                    }
                    return Err(DecodeError::Truncated);
                },
                Some((record, next)) => {
                    let ghost before = slots@;
                    slots.push(record);
                    assert(slots@.map_values(|r: SlotData| r@) =~= before.map_values(
                        |r: SlotData| r@,
                    ).push(record@));
                    at = next;
                },
            }
            i += 1;
        }
        if at != body.len() {
            return Err(DecodeError::TrailingBytes { unread: body.len() - at });
        }
        Ok(SaveFile { slots })
    }
}

// --- What is written reads back ---

/// Whether every count in `records` fits the field the layout gives it.
pub open spec fn encodable(records: Seq<SlotView>) -> bool {
    &&& records.len() <= u32::MAX
    &&& forall|i: int|
        0 <= i < records.len() ==> {
            &&& (#[trigger] records[i]).box_items.len() <= u16::MAX
            &&& forall|j: int|
                0 <= j < records[i].stores.len() ==> (#[trigger] records[i].stores[j]).items.len()
                    <= u16::MAX
        }
}

proof fn lemma_items_read_back(items: Seq<Item>, tail: Seq<u8>)
    ensures
        items_bytes(items).len() == 8 * items.len(),
        parse_items(items_bytes(items) + tail, items.len()) == items,
    decreases items.len(),
{
    if items.len() == 0 {
        assert(parse_items(items_bytes(items) + tail, 0) =~= items);
    } else {
        let init = items.drop_last();
        let last = items.last();
        let prefix = items_bytes(init);
        let rest = item_bytes(last) + tail;
        lemma_items_read_back(init, rest);
        let x = items_bytes(items) + tail;
        assert(x =~= prefix + rest);
        let n = items.len() - 1;
        assert(x =~= prefix + i32_bytes(last.id) + (i32_bytes(last.count) + tail));
        lemma_i32_round_trip(last.id, i32_bytes(last.count) + tail, prefix);
        assert(x =~= (prefix + i32_bytes(last.id)) + i32_bytes(last.count) + tail);
        lemma_i32_round_trip(last.count, tail, prefix + i32_bytes(last.id));
        assert(item_at(x, 8 * n) == last);
        assert forall|k: int| 0 <= k < n implies item_at(x, 8 * k) == items[k] by {
            assert(parse_items(prefix + rest, init.len())[k] == init[k]);
        }
        assert(parse_items(x, items.len()) =~= items);
    }
}

proof fn lemma_store_read_back(s: StoreView, tail: Seq<u8>)
    requires
        s.items.len() <= u16::MAX,
    ensures
        store_bytes(s).len() == 8 + 8 * s.items.len(),
        parse_store(store_bytes(s) + tail) == Some((s, store_bytes(s).len() as int)),
{
    let n = s.items.len();
    let a = u32_bytes(s.offset);
    let b = u16_bytes(s.position);
    let c = u16_bytes(n as u16);
    let d = items_bytes(s.items);
    lemma_items_read_back(s.items, tail);
    let x = store_bytes(s) + tail;
    assert(x =~= seq![] + a + (b + c + d + tail));
    lemma_u32_round_trip(s.offset, b + c + d + tail, seq![]);
    assert(x =~= a + b + (c + d + tail));
    lemma_u16_round_trip(s.position, c + d + tail, a);
    assert(x =~= (a + b) + c + (d + tail));
    lemma_u16_round_trip(n as u16, d + tail, a + b);
    assert(x.skip(8) =~= d + tail);
    let parsed = parse_store(x);
    assert(parsed matches Some((v, _)) && v.items =~= s.items);
}

proof fn lemma_stores_read_back(stores: Seq<StoreView>, tail: Seq<u8>)
    requires
        forall|j: int| 0 <= j < stores.len() ==> (#[trigger] stores[j]).items.len() <= u16::MAX,
    ensures
        parse_stores(stores_bytes(stores) + tail, stores.len()) == Some(
            (stores, stores_bytes(stores).len() as int),
        ),
    decreases stores.len(),
{
    if stores.len() == 0 {
        assert(parse_stores(stores_bytes(stores) + tail, 0) == Some(
            (stores, stores_bytes(stores).len() as int),
        ));
    } else {
        let init = stores.drop_last();
        let last = stores.last();
        let rest = store_bytes(last) + tail;
        assert(forall|j: int| 0 <= j < init.len() ==> #[trigger] init[j] == stores[j]);
        lemma_stores_read_back(init, rest);
        let x = stores_bytes(stores) + tail;
        assert(x =~= stores_bytes(init) + rest);
        let at = stores_bytes(init).len() as int;
        assert(x.skip(at) =~= rest);
        lemma_store_read_back(last, tail);
        assert(init.push(last) =~= stores);
    }
}

proof fn lemma_record_read_back(r: SlotView, tail: Seq<u8>)
    requires
        r.box_items.len() <= u16::MAX,
        forall|j: int| 0 <= j < r.stores.len() ==> (#[trigger] r.stores[j]).items.len() <= u16::MAX,
    ensures
        record_bytes(r).len() >= 4,
        parse_record(record_bytes(r) + tail) == Some((kept(r), record_bytes(r).len() as int)),
{
    let ks = kept_stores(r);
    let n = r.box_items.len();
    assert(forall|j: int| 0 <= j < ks.len() ==> #[trigger] ks[j] == r.stores[j]);
    let head = seq![r.slot, ks.len() as u8];
    let c = u16_bytes(n as u16);
    let d = items_bytes(r.box_items);
    let e = stores_bytes(ks);
    lemma_items_read_back(r.box_items, e + tail);
    lemma_stores_read_back(ks, tail);
    let x = record_bytes(r) + tail;
    assert(x =~= head + c + (d + e + tail));
    lemma_u16_round_trip(n as u16, d + e + tail, head);
    assert(x[0] == r.slot);
    assert(x[1] == ks.len() as u8);
    assert(x.skip(4) =~= d + (e + tail));
    assert(x.skip(4 + 8 * n as int) =~= e + tail);
    let parsed = parse_record(x);
    assert(parsed matches Some((v, _)) && v.box_items =~= r.box_items && v.stores =~= ks);
}

proof fn lemma_records_read_back(records: Seq<SlotView>, tail: Seq<u8>)
    requires
        encodable(records),
    ensures
        records_bytes(records).len() >= 4 * records.len(),
        parse_records(records_bytes(records) + tail, records.len()) == Some(
            (records.map_values(|r: SlotView| kept(r)), records_bytes(records).len() as int),
        ),
    decreases records.len(),
{
    if records.len() == 0 {
        assert(records.map_values(|r: SlotView| kept(r)) =~= seq![]);
    } else {
        let init = records.drop_last();
        let last = records.last();
        let rest = record_bytes(last) + tail;
        assert(forall|j: int| 0 <= j < init.len() ==> #[trigger] init[j] == records[j]);
        lemma_records_read_back(init, rest);
        let x = records_bytes(records) + tail;
        assert(x =~= records_bytes(init) + rest);
        let at = records_bytes(init).len() as int;
        assert(x.skip(at) =~= rest);
        assert(records[records.len() - 1] == last);
        lemma_record_read_back(last, tail);
        assert(init.map_values(|r: SlotView| kept(r)).push(kept(last)) =~= records.map_values(
            |r: SlotView| kept(r),
        ));
    }
}

/// Reading a side file gives back the records it was written from, each with
/// the stores its one-byte count could hold, whenever every count fits its
/// field.
pub proof fn law_decode_reads_what_encode_wrote(records: Seq<SlotView>)
    requires
        encodable(records),
    ensures
        decoded(file_bytes(records)) == Ok::<Seq<SlotView>, DecodeError>(
            records.map_values(|r: SlotView| kept(r)),
        ),
{
    let body = records_bytes(records);
    let crc = crc32_of(body);
    let f = file_bytes(records);
    lemma_records_read_back(records, seq![]);
    assert(body + seq![] =~= body);
    assert(f =~= magic() + u16_bytes(FORMAT_VERSION) + (u32_bytes(records.len() as u32) + u32_bytes(
        crc,
    ) + body));
    lemma_u16_round_trip(
        FORMAT_VERSION,
        u32_bytes(records.len() as u32) + u32_bytes(crc) + body,
        magic(),
    );
    assert(f =~= (magic() + u16_bytes(FORMAT_VERSION)) + u32_bytes(records.len() as u32) + (
    u32_bytes(crc) + body));
    lemma_u32_round_trip(records.len() as u32, u32_bytes(crc) + body, magic() + u16_bytes(
        FORMAT_VERSION,
    ));
    assert(f =~= (magic() + u16_bytes(FORMAT_VERSION) + u32_bytes(records.len() as u32))
        + u32_bytes(crc) + body);
    lemma_u32_round_trip(crc, body, magic() + u16_bytes(FORMAT_VERSION) + u32_bytes(
        records.len() as u32,
    ));
    assert(f.skip(HEADER as int) =~= body);
    assert(has_magic(f));
}


// --- What is cut short is refused ---

proof fn lemma_items_extend(b: Seq<u8>, t: Seq<u8>, n: nat)
    requires
        8 * n <= b.len(),
    ensures
        parse_items(b + t, n) == parse_items(b, n),
{
    let x = b + t;
    assert forall|k: int| 0 <= k < n implies #[trigger] item_at(x, 8 * k) == item_at(b, 8 * k) by {
        assert(x[8 * k] == b[8 * k]);
        assert(x[8 * k + 1] == b[8 * k + 1]);
        assert(x[8 * k + 2] == b[8 * k + 2]);
        assert(x[8 * k + 3] == b[8 * k + 3]);
        assert(x[8 * k + 4] == b[8 * k + 4]);
        assert(x[8 * k + 5] == b[8 * k + 5]);
        assert(x[8 * k + 6] == b[8 * k + 6]);
        assert(x[8 * k + 7] == b[8 * k + 7]);
    }
    assert(parse_items(x, n) =~= parse_items(b, n));
}

proof fn lemma_store_extend(b: Seq<u8>, t: Seq<u8>)
    ensures
        match parse_store(b) {
            Some((_, used)) => 0 <= used <= b.len() && parse_store(b + t) == parse_store(b),
            None => true,
        },
{
    if parse_store(b) is Some {
        let x = b + t;
        assert(x[0] == b[0] && x[1] == b[1] && x[2] == b[2] && x[3] == b[3]);
        assert(x[4] == b[4] && x[5] == b[5] && x[6] == b[6] && x[7] == b[7]);
        let n = le_u16(b, 6) as nat;
        assert(x.skip(8) =~= b.skip(8) + t);
        lemma_items_extend(b.skip(8), t, n);
    }
}

proof fn lemma_stores_extend(b: Seq<u8>, t: Seq<u8>, k: nat)
    ensures
        match parse_stores(b, k) {
            Some((_, used)) => 0 <= used <= b.len() && parse_stores(b + t, k) == parse_stores(b, k),
            None => true,
        },
    decreases k,
{
    if k > 0 {
        lemma_stores_extend(b, t, (k - 1) as nat);
        if let Some((_, at)) = parse_stores(b, (k - 1) as nat) {
            assert((b + t).skip(at) =~= b.skip(at) + t);
            lemma_store_extend(b.skip(at), t);
        }
    }
}

proof fn lemma_record_extend(b: Seq<u8>, t: Seq<u8>)
    ensures
        match parse_record(b) {
            Some((_, used)) => 0 <= used <= b.len() && parse_record(b + t) == parse_record(b),
            None => true,
        },
{
    if parse_record(b) is Some {
        let x = b + t;
        assert(x[0] == b[0] && x[1] == b[1] && x[2] == b[2] && x[3] == b[3]);
        let n = le_u16(b, 2) as int;
        assert(x.skip(4) =~= b.skip(4) + t);
        lemma_items_extend(b.skip(4), t, n as nat);
        assert(x.skip(4 + 8 * n) =~= b.skip(4 + 8 * n) + t);
        lemma_stores_extend(b.skip(4 + 8 * n), t, b[1] as nat);
    }
}

proof fn lemma_records_extend(b: Seq<u8>, t: Seq<u8>, k: nat)
    ensures
        match parse_records(b, k) {
            Some((_, used)) => 0 <= used <= b.len() && parse_records(b + t, k) == parse_records(b, k),
            None => true,
        },
    decreases k,
{
    if k > 0 {
        lemma_records_extend(b, t, (k - 1) as nat);
        if let Some((_, at)) = parse_records(b, (k - 1) as nat) {
            assert((b + t).skip(at) =~= b.skip(at) + t);
            lemma_record_extend(b.skip(at), t);
        }
    }
}

/// A side file that reads is refused when cut short anywhere, whatever its
/// checksum then happens to be: the records the header counts need every
/// byte that was cut.
pub proof fn law_a_cut_file_is_refused(b: Seq<u8>, k: int)
    requires
        decoded(b) is Ok,
        0 <= k < b.len(),
    ensures
        decoded(b.take(k)) is Err,
{
    let p = b.take(k);
    if k >= HEADER {
        assert forall|j: int| 0 <= j < HEADER implies #[trigger] p[j] == b[j] by {}
        assert(has_magic(p) == has_magic(b));
        assert(le_u16(p, 6) == le_u16(b, 6));
        assert(le_u32(p, 8) == le_u32(b, 8));
        let count = le_u32(b, 8);
        let body = b.skip(HEADER as int);
        let cut = p.skip(HEADER as int);
        let rest = body.skip(k - HEADER);
        assert(body =~= cut + rest);
        lemma_records_extend(cut, rest, count as nat);
    }
}

// --- What is changed is refused ---

proof fn lemma_shift_injective(x: u32, y: u32)
    requires
        x != y,
    ensures
        crc_shift(x) != crc_shift(y),
{
    assert(x != y ==> crc_shift(x) != crc_shift(y)) by (bit_vector);
}

proof fn lemma_shifts_injective(x: u32, y: u32, n: nat)
    requires
        x != y,
    ensures
        crc_shifts(x, n) != crc_shifts(y, n),
    decreases n,
{
    if n > 0 {
        lemma_shift_injective(x, y);
        lemma_shifts_injective(crc_shift(x), crc_shift(y), (n - 1) as nat);
    }
}

/// Two registers that differ stay different after the same byte, and one
/// register gives different registers after different bytes.
proof fn lemma_step_injective(c: u32, d: u32, u: u8, w: u8)
    requires
        c != d || u != w,
        c == d || u == w,
    ensures
        crc_step(c, u) != crc_step(d, w),
{
    let uu = u as u32;
    let ww = w as u32;
    assert(c != d && uu == ww ==> c ^ uu != d ^ ww) by (bit_vector);
    assert(c == d && uu != ww ==> c ^ uu != d ^ ww) by (bit_vector);
    lemma_shifts_injective(c ^ uu, d ^ ww, 8);
}

/// Changing byte `k` of `a` leaves the register over the bytes before it
/// alone and changes it over every longer prefix.
proof fn lemma_register_after_change(a: Seq<u8>, k: int, v: u8, m: int)
    requires
        0 <= k < a.len(),
        v != a[k],
        0 <= m <= a.len(),
    ensures
        m <= k ==> crc_register(a.take(m)) == crc_register(a.update(k, v).take(m)),
        m > k ==> crc_register(a.take(m)) != crc_register(a.update(k, v).take(m)),
    decreases m,
{
    let b = a.update(k, v);
    if m <= k {
        assert(a.take(m) =~= b.take(m));
    } else {
        lemma_register_after_change(a, k, v, m - 1);
        assert(a.take(m).drop_last() =~= a.take(m - 1));
        assert(b.take(m).drop_last() =~= b.take(m - 1));
        assert(a.take(m).last() == a[m - 1]);
        assert(b.take(m).last() == b[m - 1]);
        lemma_step_injective(crc_register(a.take(m - 1)), crc_register(b.take(m - 1)), a[m - 1], b[m - 1]);
    }
}

/// Changing any one byte of a body changes its checksum.
pub proof fn law_a_changed_byte_changes_the_checksum(body: Seq<u8>, k: int, v: u8)
    requires
        0 <= k < body.len(),
        v != body[k],
    ensures
        crc32_of(body.update(k, v)) != crc32_of(body),
{
    lemma_register_after_change(body, k, v, body.len() as int);
    assert(body.take(body.len() as int) =~= body);
    assert(body.update(k, v).take(body.len() as int) =~= body.update(k, v));
    let x = crc_register(body);
    let y = crc_register(body.update(k, v));
    assert(x != y ==> !x != !y) by (bit_vector);
}

proof fn lemma_records_grow(b: Seq<u8>, j: nat, c: nat)
    requires
        j < c,
        parse_records(b, c) is Some,
    ensures
        parse_records(b, j) is Some,
        parse_records(b, j).unwrap().1 < parse_records(b, c).unwrap().1,
    decreases c - j,
{
    let prev = parse_records(b, (c - 1) as nat);
    assert(prev is Some);
    let at = prev.unwrap().1;
    lemma_stores_extend(b.skip(at).skip(4 + 8 * le_u16(b.skip(at), 2)), seq![], b.skip(at)[1] as nat);
    assert(parse_records(b, c).unwrap().1 >= at + 4);
    if j < c - 1 {
        lemma_records_grow(b, j, (c - 1) as nat);
    }
}

/// Whether `b` has the magic, the version and a checksum that matches its
/// body: what every written file has, whatever its records.
pub open spec fn checked(b: Seq<u8>) -> bool {
    &&& b.len() >= HEADER
    &&& has_magic(b)
    &&& le_u16(b, 6) == FORMAT_VERSION
    &&& le_u32(b, 12) == crc32_of(b.skip(HEADER as int))
}

/// A checked file with one byte changed anywhere but in its record count is
/// refused.
proof fn lemma_a_checked_file_changed_is_refused(b: Seq<u8>, k: int, v: u8)
    requires
        checked(b),
        0 <= k < b.len(),
        !(8 <= k < 12),
        v != b[k],
    ensures
        decoded(b.update(k, v)) is Err,
{
    let g = b.update(k, v);
    let body = b.skip(HEADER as int);
    if k < 6 {
    } else if k < 8 {
        assert(g[6] + 256 * g[7] != b[6] + 256 * b[7]);
        assert(le_u16(g, 6) != le_u16(b, 6));
    } else if k < HEADER {
        assert(g.skip(HEADER as int) =~= body);
        assert(g[12] + 256 * g[13] + 65536 * g[14] + 16777216 * g[15] != b[12] + 256 * b[13] + 65536
            * b[14] + 16777216 * b[15]);
        assert(le_u32(g, 12) != le_u32(b, 12));
    } else {
        let at = k - HEADER;
        assert(g.skip(HEADER as int) =~= body.update(at, v));
        law_a_changed_byte_changes_the_checksum(body, at, v);
        assert forall|j: int| 0 <= j < HEADER implies #[trigger] g[j] == b[j] by {}
        assert(has_magic(g) == has_magic(b));
        assert(le_u16(g, 6) == le_u16(b, 6));
        assert(le_u32(g, 12) == le_u32(b, 12));
    }
}

/// A side file that reads is refused with any one byte changed.
pub proof fn law_a_changed_file_is_refused(b: Seq<u8>, k: int, v: u8)
    requires
        decoded(b) is Ok,
        0 <= k < b.len(),
        v != b[k],
    ensures
        decoded(b.update(k, v)) is Err,
{
    let g = b.update(k, v);
    let body = b.skip(HEADER as int);
    if 8 <= k < 12 {
        assert(g.skip(HEADER as int) =~= body);
        assert(g[8] + 256 * g[9] + 65536 * g[10] + 16777216 * g[11] != b[8] + 256 * b[9] + 65536
            * b[10] + 16777216 * b[11]);
        let c = le_u32(b, 8) as nat;
        let d = le_u32(g, 8) as nat;
        assert(d != c);
        assert(has_magic(g) == has_magic(b));
        assert(le_u16(g, 6) == le_u16(b, 6));
        assert(le_u32(g, 12) == le_u32(b, 12));
        if d > c {
            assert(body.skip(body.len() as int).len() == 0);
            lemma_records_stay_none(body, c + 1, d);
        } else {
            lemma_records_grow(body, d, c);
        }
    } else {
        lemma_a_checked_file_changed_is_refused(b, k, v);
    }
}

/// A written file begins with the magic, the format version, the number of
/// records and the checksum of the body that follows the header; the body is
/// the records, one after another.
pub proof fn law_encode_lays_out_the_header(records: Seq<SlotView>)
    ensures
        file_bytes(records).len() >= HEADER,
        has_magic(file_bytes(records)),
        le_u16(file_bytes(records), 6) == FORMAT_VERSION,
        le_u32(file_bytes(records), 8) == records.len() as u32,
        file_bytes(records).skip(HEADER as int) == records_bytes(records),
        le_u32(file_bytes(records), 12) == crc32_of(records_bytes(records)),
{
    let body = records_bytes(records);
    let crc = crc32_of(body);
    let f = file_bytes(records);
    lemma_u16_round_trip(
        FORMAT_VERSION,
        u32_bytes(records.len() as u32) + u32_bytes(crc) + body,
        magic(),
    );
    assert(f =~= magic() + u16_bytes(FORMAT_VERSION) + (u32_bytes(records.len() as u32) + u32_bytes(
        crc,
    ) + body));
    lemma_u32_round_trip(records.len() as u32, u32_bytes(crc) + body, magic() + u16_bytes(
        FORMAT_VERSION,
    ));
    assert(f =~= (magic() + u16_bytes(FORMAT_VERSION)) + u32_bytes(records.len() as u32) + (
    u32_bytes(crc) + body));
    lemma_u32_round_trip(crc, body, magic() + u16_bytes(FORMAT_VERSION) + u32_bytes(
        records.len() as u32,
    ));
    assert(f =~= (magic() + u16_bytes(FORMAT_VERSION) + u32_bytes(records.len() as u32))
        + u32_bytes(crc) + body);
    assert(f.skip(HEADER as int) =~= body);
}

/// Each record as written begins with its slot and the number of stores that
/// follow it: all of them, or the first `MAX_STORES` where there are more.
pub proof fn law_a_record_counts_the_stores_that_follow(r: SlotView)
    ensures
        record_bytes(r)[0] == r.slot,
        record_bytes(r)[1] == kept_stores(r).len(),
        kept_stores(r).len() == if r.stores.len() <= MAX_STORES {
            r.stores.len()
        } else {
            MAX_STORES as nat
        },
        kept_stores(r) == r.stores.take(kept_stores(r).len() as int),
        record_bytes(r).skip(4 + 8 * r.box_items.len() as int) == stores_bytes(kept_stores(r)),
{
    let head = seq![r.slot, kept_stores(r).len() as u8] + u16_bytes(r.box_items.len() as u16);
    lemma_items_read_back(r.box_items, stores_bytes(kept_stores(r)));
    assert(record_bytes(r) =~= head + items_bytes(r.box_items) + stores_bytes(kept_stores(r)));
    assert(record_bytes(r).skip(4 + 8 * r.box_items.len() as int) =~= stores_bytes(kept_stores(r)));
    if r.stores.len() <= MAX_STORES {
        assert(r.stores.take(r.stores.len() as int) =~= r.stores);
    }
}

/// A written file with one byte changed anywhere but in its record count is
/// refused, whatever records it was written from.
pub proof fn law_a_changed_written_file_is_refused(records: Seq<SlotView>, k: int, v: u8)
    requires
        0 <= k < file_bytes(records).len(),
        !(8 <= k < 12),
        v != file_bytes(records)[k],
    ensures
        decoded(file_bytes(records).update(k, v)) is Err,
{
    law_encode_lays_out_the_header(records);
    lemma_a_checked_file_changed_is_refused(file_bytes(records), k, v);
}

} // verus!
