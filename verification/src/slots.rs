//! The item list behind the window, and the rules that keep it valid.
//!
//! Some items occupy two slots. The game represents that as the item itself
//! followed by a filler entry, and it addresses the inventory as rows of two.
//! A two-slot item may therefore only start at an even index; starting one at an
//! odd index splits it across two rows, which the game draws and handles wrongly.
//!
//! Every operation here either preserves that or repairs it. The game itself
//! leaves the bag inconsistent partway through an exchange, so repair is not an
//! error path: it is a normal step.

use vstd::prelude::*;

use crate::inventory::{is_two_slot, two_slot, Item, BAG_SIZE, SLOT_TWO_FILLER};

verus! {

/// One logical entry, before it is laid out into slots.
#[derive(Clone, Copy, Debug, PartialEq, Eq, Structural)]
pub enum Entry {
    /// Occupies one slot.
    Single(Item),
    /// Occupies two: the item, then the filler.
    Double(Item),
}

impl Entry {
    pub open spec fn spec_width(self) -> int {
        match self {
            Entry::Single(_) => 1,
            Entry::Double(_) => 2,
        }
    }

    pub open spec fn item(self) -> Item {
        match self {
            Entry::Single(item) => item,
            Entry::Double(item) => item,
        }
    }

    fn width(self) -> (r: usize)
        ensures
            r == self.spec_width(),
    {
        match self {
            Entry::Single(_) => 1,
            Entry::Double(_) => 2,
        }
    }
}

// --- The rules, as statements about a sequence of slots ---

/// Number of empty slots.
pub open spec fn empties(s: Seq<Item>) -> nat
    decreases s.len(),
{
    if s.len() == 0 {
        0
    } else {
        empties(s.drop_last()) + if s.last().vacant() {
            1nat
        } else {
            0nat
        }
    }
}

/// Sum of the counts of every slot holding `id`.
pub open spec fn total_of(s: Seq<Item>, id: i32) -> int
    decreases s.len(),
{
    if s.len() == 0 {
        0
    } else {
        total_of(s.drop_last(), id) + if s.last().id == id {
            s.last().count as int
        } else {
            0
        }
    }
}

/// Whether index `i` breaks the two-slot pairing: a two-slot item not followed
/// by the filler, or a filler not preceded by a two-slot item.
pub open spec fn breaks_pairing(s: Seq<Item>, i: int) -> bool {
    ||| two_slot(s[i].id) && !(i + 1 < s.len() && s[i + 1].id == SLOT_TWO_FILLER)
    ||| s[i].id == SLOT_TWO_FILLER && !(i >= 1 && two_slot(s[i - 1].id))
}

/// Whether the two-slot pairing fails anywhere.
pub open spec fn broken(s: Seq<Item>) -> bool {
    exists|i: int| 0 <= i < s.len() && #[trigger] breaks_pairing(s, i)
}

/// Whether every two-slot item starts on an even index.
pub open spec fn aligned(s: Seq<Item>) -> bool {
    forall|i: int| 0 <= i < s.len() && two_slot(#[trigger] s[i].id) ==> i % 2 == 0
}

/// Whether the used slots are packed towards the front: a used slot right
/// after an empty one is only allowed when that empty slot is a single odd
/// slot of padding, after a used one, putting a two-slot item on an even index.
pub open spec fn packed(s: Seq<Item>) -> bool {
    forall|i: int|
        1 <= i < s.len() && !(#[trigger] s[i]).vacant() && s[i - 1].vacant() ==> {
            &&& (i - 1) % 2 == 1
            &&& two_slot(s[i].id)
            &&& !s[i - 2].vacant()
        }
}

/// Every rule at once.
pub open spec fn valid_layout(s: Seq<Item>) -> bool {
    !broken(s) && aligned(s) && packed(s)
}

/// The capacity a store is created with: at least the game's own size, and even.
pub open spec fn rounded_capacity(capacity: int) -> int {
    let c = if capacity < BAG_SIZE {
        BAG_SIZE as int
    } else {
        capacity
    };
    if c % 2 == 0 {
        c
    } else {
        c + 1
    }
}

// --- Repair, as the sequence of entries it works on ---

/// The logical entries of the slots from `i` on. Empty slots and fillers are
/// dropped; a two-slot item takes its filler along if it is there.
pub open spec fn entries_from(s: Seq<Item>, i: int) -> Seq<Entry>
    decreases s.len() - i,
{
    if i < 0 || i >= s.len() {
        Seq::empty()
    } else {
        let item = s[i];
        if item.vacant() || item.id == SLOT_TWO_FILLER {
            entries_from(s, i + 1)
        } else if two_slot(item.id) {
            let step: int = if i + 1 < s.len() && s[i + 1].id == SLOT_TWO_FILLER {
                2
            } else {
                1
            };
            seq![Entry::Double(item)] + entries_from(s, i + step)
        } else {
            seq![Entry::Single(item)] + entries_from(s, i + 1)
        }
    }
}

/// The logical entries of a store.
pub open spec fn entries_of(s: Seq<Item>) -> Seq<Entry> {
    entries_from(s, 0)
}

/// Index of the first single entry at or after `k`.
pub open spec fn first_single(p: Seq<Entry>, k: int) -> Option<int>
    decreases p.len() - k,
{
    if k < 0 || k >= p.len() {
        None
    } else if p[k] is Single {
        Some(k)
    } else {
        first_single(p, k + 1)
    }
}

/// Which pending entry goes at `cursor`: on an even index the first one, on an
/// odd index the first single.
pub open spec fn chosen(p: Seq<Entry>, cursor: int) -> Option<int> {
    if cursor % 2 == 0 {
        if p.len() > 0 {
            Some(0)
        } else {
            None
        }
    } else {
        first_single(p, 0)
    }
}

/// Writes one entry into `out` at `cursor`.
pub open spec fn place(out: Seq<Item>, cursor: int, e: Entry) -> Seq<Item> {
    match e {
        Entry::Single(item) => out.update(cursor, item),
        Entry::Double(item) => out.update(cursor, item).update(cursor + 1, Item::spec_filler()),
    }
}

/// Lays `pending` out from `cursor` into `out`, keeping every two-slot item on
/// an even index. Gives the slots and whatever did not fit.
pub open spec fn lay(pending: Seq<Entry>, cursor: int, out: Seq<Item>) -> (Seq<Item>, Seq<Entry>)
    decreases out.len() - cursor,
{
    if pending.len() == 0 || cursor < 0 {
        (out, pending)
    } else {
        match chosen(pending, cursor) {
            None => if cursor >= out.len() {
                (out, pending)
            } else {
                lay(pending, cursor + 1, out)
            },
            Some(p) => {
                let e = pending[p];
                if cursor + e.spec_width() > out.len() {
                    (out, pending)
                } else {
                    proof {
                        assert(place(out, cursor, e).len() == out.len());
                    }
                    lay(pending.remove(p), cursor + e.spec_width(), place(out, cursor, e))
                }
            },
        }
    }
}

/// `n` empty slots.
pub open spec fn blank(n: nat) -> Seq<Item> {
    Seq::new(n, |i: int| Item::spec_empty())
}

/// The slots a repair produces.
pub open spec fn repaired(s: Seq<Item>) -> Seq<Item> {
    lay(entries_of(s), 0, blank(s.len())).0
}

/// What a repair hands back because it did not fit.
pub open spec fn overflow(s: Seq<Item>) -> Seq<Item> {
    lay(entries_of(s), 0, blank(s.len())).1.map_values(|e: Entry| e.item())
}

/// The mod's item storage for one character.
#[derive(Debug, PartialEq, Eq)]
pub struct Slots {
    items: Vec<Item>,
}

impl Clone for Slots {
    fn clone(&self) -> (r: Slots)
        ensures
            r.contents() == self.contents(),
    {
        Slots { items: copy_items(&self.items) }
    }
}

/// A copy of a list of items.
pub fn copy_items(items: &Vec<Item>) -> (r: Vec<Item>)
    ensures
        r@ == items@,
{
    let mut out: Vec<Item> = Vec::new();
    let mut i: usize = 0;
    while i < items.len()
        invariant
            i <= items@.len(),
            out@ == items@.subrange(0, i as int),
        decreases items@.len() - i,
    {
        out.push(items[i]);
        i += 1;
        assert(out@ =~= items@.subrange(0, i as int));
    }
    assert(items@.subrange(0, i as int) =~= items@);
    out
}

/// Picks which pending entry to place at `cursor`.
///
/// On an even index anything fits, so the first entry keeps the original order.
/// On an odd index only a single fits, so the first single is pulled forward.
fn choose_next(pending: &Vec<Entry>, cursor: usize) -> (r: Option<usize>)
    ensures
        match chosen(pending@, cursor as int) {
            Some(p) => r == Some(p as usize) && 0 <= p < pending@.len(),
            None => r is None,
        },
{
    if cursor % 2 == 0 {
        if pending.len() > 0 {
            return Some(0);
        }
        return None;
    }
    let mut k: usize = 0;
    while k < pending.len()
        invariant
            k <= pending@.len(),
            cursor % 2 == 1,
            first_single(pending@, 0) == first_single(pending@, k as int),
        decreases pending@.len() - k,
    {
        if let Entry::Single(_) = pending[k] {
            return Some(k);
        }
        k += 1;
    }
    None
}

proof fn lemma_first_single_range(p: Seq<Entry>, k: int)
    ensures
        match first_single(p, k) {
            Some(i) => k <= i < p.len() && p[i] is Single,
            None => true,
        },
    decreases p.len() - k,
{
    if 0 <= k < p.len() && !(p[k] is Single) {
        lemma_first_single_range(p, k + 1);
    }
}

impl Slots {
    /// The slots, in order.
    pub closed spec fn contents(&self) -> Seq<Item> {
        self.items@
    }

    /// The shape every store keeps: an even number of slots, at least the
    /// game's own six.
    pub open spec fn wf(&self) -> bool {
        &&& self.contents().len() >= BAG_SIZE
        &&& self.contents().len() % 2 == 0
    }

    /// Creates an empty store.
    ///
    /// The capacity is forced even and at least the game's own size. An odd
    /// capacity would leave a trailing slot that can never hold the second half
    /// of a two-slot item, and every scroll position would be a special case.
    pub fn new(capacity: usize) -> (r: Slots)
        requires
            capacity < usize::MAX,
        ensures
            r.wf(),
            r.contents() == blank(rounded_capacity(capacity as int) as nat),
    {
        let c = if capacity < BAG_SIZE {
            BAG_SIZE
        } else {
            capacity
        };
        let c = if c % 2 == 0 {
            c
        } else {
            c + 1
        };
        let mut items: Vec<Item> = Vec::new();
        let mut i: usize = 0;
        while i < c
            invariant
                i <= c,
                items@ == blank(i as nat),
            decreases c - i,
        {
            items.push(Item::empty());
            i += 1;
            assert(items@ =~= blank(i as nat));
        }
        Slots { items }
    }

    /// A store holding exactly these slots.
    pub fn from_items(items: Vec<Item>) -> (r: Slots)
        ensures
            r.contents() == items@,
    {
        Slots { items }
    }

    pub fn capacity(&self) -> (r: usize)
        ensures
            r == self.contents().len(),
    {
        self.items.len()
    }

    pub fn as_slice(&self) -> (r: &[Item])
        ensures
            r@ == self.contents(),
    {
        self.items.as_slice()
    }

    pub fn get(&self, index: usize) -> (r: Option<Item>)
        ensures
            r == (if index < self.contents().len() {
                Some(self.contents()[index as int])
            } else {
                None
            }),
    {
        if index < self.items.len() {
            Some(self.items[index])
        } else {
            None
        }
    }

    /// Writes one slot; refuses an index past the end.
    pub fn set(&mut self, index: usize, item: Item) -> (r: bool)
        ensures
            r == (index < old(self).contents().len()),
            final(self).contents() == (if r {
                old(self).contents().update(index as int, item)
            } else {
                old(self).contents()
            }),
    {
        if index < self.items.len() {
            self.items.set(index, item);
            true
        } else {
            false
        }
    }

    /// Copies `count` slots starting at `start`, padding with empties if the
    /// range runs past the end.
    pub fn view(&self, start: usize, count: usize) -> (r: Vec<Item>)
        requires
            start + count <= usize::MAX,
        ensures
            r@.len() == count,
            forall|k: int|
                0 <= k < count ==> #[trigger] r@[k] == (if start + k < self.contents().len() {
                    self.contents()[start + k]
                } else {
                    Item::spec_empty()
                }),
    {
        let mut out: Vec<Item> = Vec::new();
        let mut k: usize = 0;
        while k < count
            invariant
                k <= count,
                start + count <= usize::MAX,
                out@.len() == k,
                forall|j: int|
                    0 <= j < k ==> #[trigger] out@[j] == (if start + j < self.contents().len() {
                        self.contents()[start + j]
                    } else {
                        Item::spec_empty()
                    }),
            decreases count - k,
        {
            let item = match self.get(start + k) {
                Some(item) => item,
                None => Item::empty(),
            };
            out.push(item);
            k += 1;
        }
        out
    }

    /// Index of the first empty slot, or `None` when full.
    pub fn first_empty(&self) -> (r: Option<usize>)
        ensures
            match r {
                Some(i) => i < self.contents().len() && self.contents()[i as int].vacant() && forall|j: int|
                    0 <= j < i ==> !(#[trigger] self.contents()[j]).vacant(),
                None => forall|j: int| 0 <= j < self.contents().len() ==> !(#[trigger] self.contents()[j]).vacant(),
            },
    {
        let mut i: usize = 0;
        while i < self.items.len()
            invariant
                i <= self.contents().len(),
                forall|j: int| 0 <= j < i ==> !(#[trigger] self.contents()[j]).vacant(),
            decreases self.contents().len() - i,
        {
            if self.items[i].is_empty() {
                return Some(i);
            }
            i += 1;
        }
        None
    }

    pub fn count_empty(&self) -> (r: usize)
        ensures
            r == empties(self.contents()),
    {
        let mut n: usize = 0;
        let mut i: usize = 0;
        while i < self.items.len()
            invariant
                i <= self.contents().len(),
                n == empties(self.contents().subrange(0, i as int)),
                n <= i,
            decreases self.contents().len() - i,
        {
            assert(self.contents().subrange(0, i + 1).drop_last() =~= self.contents().subrange(0, i as int));
            if self.items[i].is_empty() {
                n += 1;
            }
            i += 1;
        }
        assert(self.contents().subrange(0, i as int) =~= self.contents());
        n
    }

    /// Index of the first slot holding `id`.
    ///
    /// The filler is never reported: it is an implementation detail of two-slot
    /// items, not something the player holds. Nor is the empty id.
    pub fn find(&self, id: i32) -> (r: Option<usize>)
        ensures
            id == SLOT_TWO_FILLER || id == 0 ==> r is None,
            id != SLOT_TWO_FILLER && id != 0 ==> match r {
                Some(i) => i < self.contents().len() && self.contents()[i as int].id == id && forall|j: int|
                    0 <= j < i ==> (#[trigger] self.contents()[j]).id != id,
                None => forall|j: int| 0 <= j < self.contents().len() ==> (#[trigger] self.contents()[j]).id != id,
            },
    {
        if id == SLOT_TWO_FILLER || id == 0 {
            return None;
        }
        let mut i: usize = 0;
        while i < self.items.len()
            invariant
                i <= self.contents().len(),
                id != SLOT_TWO_FILLER && id != 0,
                forall|j: int| 0 <= j < i ==> (#[trigger] self.contents()[j]).id != id,
            decreases self.contents().len() - i,
        {
            if self.items[i].id == id {
                return Some(i);
            }
            i += 1;
        }
        None
    }

    /// How many of `id` the store holds across every slot.
    pub fn total_count(&self, id: i32) -> (r: i64)
        requires
            self.contents().len() <= u32::MAX,
        ensures
            r == total_of(self.contents(), id),
    {
        let mut total: i64 = 0;
        let mut i: usize = 0;
        while i < self.items.len()
            invariant
                i <= self.contents().len(),
                self.contents().len() <= u32::MAX,
                total == total_of(self.contents().subrange(0, i as int), id),
                -0x8000_0000 * i <= total <= 0x7FFF_FFFF * i,
            decreases self.contents().len() - i,
        {
            assert(self.contents().subrange(0, i + 1).drop_last() =~= self.contents().subrange(0, i as int));
            let item = self.items[i];
            if item.id == id {
                total = total + item.count as i64;
            }
            i += 1;
        }
        assert(self.contents().subrange(0, i as int) =~= self.contents());
        total
    }

    /// Whether the two-slot pairing fails anywhere.
    ///
    /// This is about pairing only, not placement: a correctly paired two-slot
    /// item sitting at an odd index is not broken, it is misaligned.
    pub fn is_broken(&self) -> (r: bool)
        ensures
            r == broken(self.contents()),
    {
        let n = self.items.len();
        let mut i: usize = 0;
        while i < n
            invariant
                n == self.contents().len(),
                i <= n,
                forall|j: int| 0 <= j < i ==> !#[trigger] breaks_pairing(self.contents(), j),
            decreases n - i,
        {
            let item = self.items[i];
            if is_two_slot(item.id) {
                if !(i + 1 < n && self.items[i + 1].id == SLOT_TWO_FILLER) {
                    assert(breaks_pairing(self.contents(), i as int));
                    return true;
                }
            }
            if item.id == SLOT_TWO_FILLER {
                if !(i >= 1 && is_two_slot(self.items[i - 1].id)) {
                    assert(breaks_pairing(self.contents(), i as int));
                    return true;
                }
            }
            i += 1;
        }
        false
    }

    /// Whether every two-slot item starts on an even index.
    pub fn is_aligned(&self) -> (r: bool)
        ensures
            r == aligned(self.contents()),
    {
        let mut i: usize = 0;
        while i < self.items.len()
            invariant
                i <= self.contents().len(),
                forall|j: int| 0 <= j < i && two_slot(#[trigger] self.contents()[j].id) ==> j % 2 == 0,
            decreases self.contents().len() - i,
        {
            if is_two_slot(self.items[i].id) && i % 2 != 0 {
                return false;
            }
            i += 1;
        }
        true
    }

    /// Whether the used slots are packed towards the front, with holes only
    /// where alignment forces one.
    pub fn is_packed(&self) -> (r: bool)
        ensures
            r == packed(self.contents()),
    {
        let n = self.items.len();
        let mut seen_empty_at: Option<usize> = None;
        let mut i: usize = 0;
        while i < n
            invariant
                n == self.contents().len(),
                i <= n,
                forall|j: int|
                    1 <= j < i && !(#[trigger] self.contents()[j]).vacant() && self.contents()[j - 1].vacant() ==> {
                        &&& (j - 1) % 2 == 1
                        &&& two_slot(self.contents()[j].id)
                        &&& !self.contents()[j - 2].vacant()
                    },
                match seen_empty_at {
                    Some(e) => e < i && self.contents()[i - 1].vacant() && (forall|j: int|
                        e <= j < i ==> (#[trigger] self.contents()[j]).vacant()) && (e == 0 || !self.contents()[e
                        - 1].vacant()),
                    None => i == 0 || !self.contents()[i - 1].vacant(),
                },
            decreases n - i,
        {
            let item = self.items[i];
            if item.is_empty() {
                if seen_empty_at.is_none() {
                    seen_empty_at = Some(i);
                }
            } else {
                if let Some(empty) = seen_empty_at {
                    let forced = empty % 2 != 0 && is_two_slot(item.id) && i == empty + 1;
                    if !forced {
                        assert(!(#[trigger] self.contents()[i as int]).vacant());
                        if empty + 1 != i {
                            assert(self.contents()[i - 2].vacant());
                        }
                        return false;
                    }
                    seen_empty_at = None;
                }
            }
            i += 1;
        }
        true
    }

    /// Reduces the slots to logical entries, discarding the encoding.
    ///
    /// Orphan fillers are dropped: a filler with no two-slot item in front of it
    /// represents nothing the player owns. A two-slot item missing its filler
    /// keeps its second slot, which `lay_out` writes back.
    fn extract_entries(&self) -> (r: Vec<Entry>)
        ensures
            r@ == entries_of(self.contents()),
    {
        let ghost s = self.contents();
        let n = self.items.len();
        let mut entries: Vec<Entry> = Vec::new();
        let mut i: usize = 0;
        while i < n
            invariant
                n == s.len(),
                s == self.contents(),
                i <= n,
                entries@ + entries_from(s, i as int) == entries_from(s, 0),
            decreases n - i,
        {
            let item = self.items[i];
            if item.is_empty() || item.id == SLOT_TWO_FILLER {
                i += 1;
                continue;
            }
            if is_two_slot(item.id) {
                let ghost before = entries@;
                entries.push(Entry::Double(item));
                let skip = i + 1 < n && self.items[i + 1].id == SLOT_TWO_FILLER;
                let step: usize = if skip { 2 } else { 1 };
                assert(before + entries_from(s, i as int) == entries@ + entries_from(s, i + step));
                i += step;
                continue;
            }
            let ghost before = entries@;
            entries.push(Entry::Single(item));
            assert(before + entries_from(s, i as int) == entries@ + entries_from(s, i + 1));
            i += 1;
        }
        assert(entries_from(s, i as int) =~= Seq::<Entry>::empty());
        assert(entries@ + entries_from(s, i as int) =~= entries@);
        entries
    }

    /// Writes entries back into slots, keeping every two-slot item on an even
    /// index.
    ///
    /// When a double would land on an odd index, a single is pulled forward to
    /// absorb the parity. That reorders the inventory, which the player can see,
    /// but the alternative is a hole, and the game's own sort reorders too.
    /// A hole is only left when there is no single available to move.
    fn lay_out(&mut self, entries: Vec<Entry>) -> (r: Vec<Item>)
        ensures
            final(self).contents() == lay(entries@, 0, blank(old(self).contents().len())).0,
            r@ == lay(entries@, 0, blank(old(self).contents().len())).1.map_values(
                |e: Entry| e.item(),
            ),
    {
        let capacity = self.items.len();
        let ghost target = lay(entries@, 0, blank(capacity as nat));
        let mut out: Vec<Item> = Vec::new();
        let mut i: usize = 0;
        while i < capacity
            invariant
                i <= capacity,
                out@ == blank(i as nat),
            decreases capacity - i,
        {
            out.push(Item::empty());
            i += 1;
            assert(out@ =~= blank(i as nat));
        }
        let mut pending: Vec<Entry> = entries;
        let mut cursor: usize = 0;
        loop
            invariant
                out@.len() == capacity,
                cursor <= capacity,
                lay(pending@, cursor as int, out@) == target,
            ensures
                (out@, pending@) == target,
            decreases capacity - cursor,
        {
            if pending.len() == 0 {
                break;
            }
            match choose_next(&pending, cursor) {
                None => {
                    if cursor >= capacity {
                        break;
                    }
                    cursor += 1;
                },
                Some(position) => {
                    let entry = pending[position];
                    if entry.width() > capacity - cursor {
                        break;
                    }
                    pending.remove(position);
                    match entry {
                        Entry::Single(item) => {
                            out.set(cursor, item);
                            cursor += 1;
                        },
                        Entry::Double(item) => {
                            out.set(cursor, item);
                            out.set(cursor + 1, Item::filler());
                            cursor += 2;
                        },
                    }
                },
            }
        }
        self.items = out;
        let mut overflow: Vec<Item> = Vec::new();
        let mut k: usize = 0;
        while k < pending.len()
            invariant
                k <= pending@.len(),
                overflow@ == pending@.subrange(0, k as int).map_values(|e: Entry| e.item()),
            decreases pending@.len() - k,
        {
            let item = match pending[k] {
                Entry::Single(item) => item,
                Entry::Double(item) => item,
            };
            overflow.push(item);
            k += 1;
            assert(overflow@ =~= pending@.subrange(0, k as int).map_values(|e: Entry| e.item()));
        }
        assert(pending@.subrange(0, k as int) =~= pending@);
        overflow
    }

    /// Rebuilds the layout so that it satisfies every rule.
    ///
    /// Returns whatever did not fit, which can only happen if the capacity
    /// shrank since the contents were stored. Losing a player's items silently
    /// is not an acceptable failure mode, so they are handed back rather than
    /// dropped.
    pub fn repair(&mut self) -> (r: Vec<Item>)
        ensures
            final(self).contents() == repaired(old(self).contents()),
            r@ == overflow(old(self).contents()),
    {
        let entries = self.extract_entries();
        self.lay_out(entries)
    }

    pub fn is_valid(&self) -> (r: bool)
        ensures
            r == valid_layout(self.contents()),
    {
        !self.is_broken() && self.is_aligned() && self.is_packed()
    }
}

/// Laying out never changes how many slots there are.
pub proof fn lemma_lay_length(s: Seq<Item>)
    ensures
        repaired(s).len() == s.len(),
{
    lemma_lay_keeps_length(entries_of(s), 0, blank(s.len()));
}

proof fn lemma_lay_keeps_length(p: Seq<Entry>, c: int, out: Seq<Item>)
    ensures
        lay(p, c, out).0.len() == out.len(),
    decreases out.len() - c,
{
    if p.len() == 0 || c < 0 {
    } else {
        match chosen(p, c) {
            None => {
                if c < out.len() {
                    lemma_lay_keeps_length(p, c + 1, out);
                }
            },
            Some(pos) => {
                let e = p[pos];
                if c + e.spec_width() <= out.len() {
                    lemma_lay_keeps_length(p.remove(pos), c + e.spec_width(), place(out, c, e));
                }
            },
        }
    }
}

// --- Why repair always produces a valid layout ---

/// A slot holding an ordinary one-slot item.
pub open spec fn plain(item: Item) -> bool {
    !item.vacant() && item.id != SLOT_TWO_FILLER && !two_slot(item.id)
}

/// An entry whose item matches its width.
pub open spec fn entry_ok(e: Entry) -> bool {
    match e {
        Entry::Single(item) => plain(item),
        Entry::Double(item) => two_slot(item.id),
    }
}

/// What holds at every step of laying entries out.
pub open spec fn lay_inv(p: Seq<Entry>, c: int, out: Seq<Item>) -> bool {
    &&& 0 <= c <= out.len()
    &&& forall|j: int| 0 <= j < p.len() ==> entry_ok(#[trigger] p[j])
    &&& forall|k: int| c <= k < out.len() ==> (#[trigger] out[k]).vacant()
    &&& valid_layout(out)
    &&& c % 2 == 1 ==> plain(out[c - 1])
    &&& c >= 1 && out[c - 1].vacant() ==> {
        &&& first_single(p, 0) is None
        &&& (c - 1) % 2 == 1
        &&& c >= 2
        &&& !out[c - 2].vacant()
    }
}

proof fn lemma_first_single_none(p: Seq<Entry>, k: int)
    requires
        0 <= k,
        first_single(p, k) is None,
    ensures
        forall|j: int| k <= j < p.len() ==> !(#[trigger] p[j] is Single),
    decreases p.len() - k,
{
    if k < p.len() {
        lemma_first_single_none(p, k + 1);
    }
}

proof fn lemma_place_single(p: Seq<Entry>, c: int, out: Seq<Item>, pos: int)
    requires
        lay_inv(p, c, out),
        0 <= pos < p.len(),
        p[pos] is Single,
        c + 1 <= out.len(),
        chosen(p, c) == Some(pos),
    ensures
        lay_inv(p.remove(pos), c + 1, place(out, c, p[pos])),
{
    let item = p[pos]->Single_0;
    let q = p.remove(pos);
    let o = place(out, c, p[pos]);
    assert(entry_ok(p[pos]));
    assert(o == out.update(c, item));
    assert forall|j: int| 0 <= j < q.len() implies entry_ok(#[trigger] q[j]) by {
        if j < pos {
            assert(q[j] == p[j]);
        } else {
            assert(q[j] == p[j + 1]);
        }
    }
    if c >= 1 && out[c - 1].vacant() {
        // A hole is only left when no single remains.
        lemma_first_single_range(p, 0);
        assert(false);
    }
    assert forall|i: int| 0 <= i < o.len() implies !#[trigger] breaks_pairing(o, i) by {
        assert(!breaks_pairing(out, i));
        if i == c - 1 {
            assert(out[c].vacant());
        }
    }
    assert forall|i: int| 1 <= i < o.len() && !(#[trigger] o[i]).vacant() && o[i - 1].vacant() implies {
        &&& (i - 1) % 2 == 1
        &&& two_slot(o[i].id)
        &&& !o[i - 2].vacant()
    } by {
        if i == c + 1 {
            assert(out[c + 1].vacant());
        } else if i != c {
            assert(o[i] == out[i] && o[i - 1] == out[i - 1]);
            if i - 2 == c {
                assert(!o[i - 2].vacant());
            } else {
                assert(o[i - 2] == out[i - 2]);
            }
        }
    }
}

proof fn lemma_place_double(p: Seq<Entry>, c: int, out: Seq<Item>, pos: int)
    requires
        lay_inv(p, c, out),
        0 <= pos < p.len(),
        p[pos] is Double,
        c + 2 <= out.len(),
        chosen(p, c) == Some(pos),
    ensures
        lay_inv(p.remove(pos), c + 2, place(out, c, p[pos])),
{
    let item = p[pos]->Double_0;
    let q = p.remove(pos);
    let o = place(out, c, p[pos]);
    assert(entry_ok(p[pos]));
    if c % 2 == 1 {
        lemma_first_single_range(p, 0);
        assert(false);
    }
    assert(o == out.update(c, item).update(c + 1, Item::spec_filler()));
    assert forall|j: int| 0 <= j < q.len() implies entry_ok(#[trigger] q[j]) by {
        if j < pos {
            assert(q[j] == p[j]);
        } else {
            assert(q[j] == p[j + 1]);
        }
    }
    assert forall|i: int| 0 <= i < o.len() implies !#[trigger] breaks_pairing(o, i) by {
        assert(!breaks_pairing(out, i));
        if i == c - 1 {
            assert(out[c].vacant());
        }
        if i == c + 2 && c + 2 < o.len() {
            assert(out[c + 2].vacant());
        }
    }
    assert forall|i: int| 0 <= i < o.len() && two_slot(#[trigger] o[i].id) implies i % 2 == 0 by {
        if i != c && i != c + 1 {
            assert(o[i] == out[i]);
        }
    }
    assert forall|i: int| 1 <= i < o.len() && !(#[trigger] o[i]).vacant() && o[i - 1].vacant() implies {
        &&& (i - 1) % 2 == 1
        &&& two_slot(o[i].id)
        &&& !o[i - 2].vacant()
    } by {
        if i == c + 2 {
            assert(out[c + 2].vacant());
        } else if i != c && i != c + 1 {
            assert(o[i] == out[i] && o[i - 1] == out[i - 1]);
            if i - 2 == c || i - 2 == c + 1 {
                assert(!o[i - 2].vacant());
            } else {
                assert(o[i - 2] == out[i - 2]);
            }
        }
    }
}

proof fn lemma_lay_valid(p: Seq<Entry>, c: int, out: Seq<Item>)
    requires
        lay_inv(p, c, out),
    ensures
        valid_layout(lay(p, c, out).0),
    decreases out.len() - c,
{
    if p.len() == 0 {
    } else {
        match chosen(p, c) {
            None => {
                if c < out.len() {
                    // Only an odd cursor with no single left gets here.
                    assert(c % 2 == 1);
                    lemma_first_single_none(p, 0);
                    assert(lay_inv(p, c + 1, out));
                    lemma_lay_valid(p, c + 1, out);
                }
            },
            Some(pos) => {
                if c % 2 == 1 {
                    lemma_first_single_range(p, 0);
                }
                let e = p[pos];
                if c + e.spec_width() <= out.len() {
                    match e {
                        Entry::Single(_) => lemma_place_single(p, c, out, pos),
                        Entry::Double(_) => lemma_place_double(p, c, out, pos),
                    }
                    lemma_lay_valid(p.remove(pos), c + e.spec_width(), place(out, c, e));
                }
            },
        }
    }
}

proof fn lemma_entries_ok(s: Seq<Item>, i: int)
    ensures
        forall|j: int| 0 <= j < entries_from(s, i).len() ==> entry_ok(#[trigger] entries_from(s, i)[j]),
    decreases s.len() - i,
{
    if 0 <= i < s.len() {
        let item = s[i];
        if item.vacant() || item.id == SLOT_TWO_FILLER {
            lemma_entries_ok(s, i + 1);
            assert(entries_from(s, i) == entries_from(s, i + 1));
        } else if two_slot(item.id) {
            let step: int = if i + 1 < s.len() && s[i + 1].id == SLOT_TWO_FILLER {
                2
            } else {
                1
            };
            lemma_entries_ok(s, i + step);
            let rest = entries_from(s, i + step);
            assert(entries_from(s, i) == seq![Entry::Double(item)] + rest);
            assert forall|j: int| 0 <= j < entries_from(s, i).len() implies entry_ok(
                #[trigger] entries_from(s, i)[j],
            ) by {
                if j > 0 {
                    assert(entries_from(s, i)[j] == rest[j - 1]);
                }
            }
        } else {
            lemma_entries_ok(s, i + 1);
            let rest = entries_from(s, i + 1);
            assert(entries_from(s, i) == seq![Entry::Single(item)] + rest);
            assert forall|j: int| 0 <= j < entries_from(s, i).len() implies entry_ok(
                #[trigger] entries_from(s, i)[j],
            ) by {
                if j > 0 {
                    assert(entries_from(s, i)[j] == rest[j - 1]);
                }
            }
        }
    }
}

/// Repair always leaves a layout that satisfies every rule: the two-slot
/// pairing holds, every two-slot item starts a row, and the used slots are
/// packed to the front with holes only where alignment forces one.
pub proof fn law_repair_is_valid(s: Seq<Item>)
    ensures
        valid_layout(repaired(s)),
{
    let out = blank(s.len());
    lemma_entries_ok(s, 0);
    assert forall|i: int| 0 <= i < out.len() implies !#[trigger] breaks_pairing(out, i) by {
        assert(out[i].vacant());
    }
    assert(lay_inv(entries_of(s), 0, out));
    lemma_lay_valid(entries_of(s), 0, out);
}

// --- Why repair loses nothing ---

/// A slot that holds something the player owns: not empty, and not the
/// filler behind a two-slot item.
pub open spec fn kept(item: Item) -> bool {
    !item.vacant() && item.id != SLOT_TWO_FILLER
}

/// The items the player owns in `s`, in slot order.
pub open spec fn held(s: Seq<Item>) -> Seq<Item>
    decreases s.len(),
{
    if s.len() == 0 {
        seq![]
    } else if kept(s[0]) {
        seq![s[0]] + held(s.drop_first())
    } else {
        held(s.drop_first())
    }
}

/// The items of a list of entries.
pub open spec fn entry_items(p: Seq<Entry>) -> Seq<Item> {
    p.map_values(|e: Entry| e.item())
}

/// Slots an item needs: two for a two-slot item, else one.
pub open spec fn item_width(item: Item) -> int {
    if two_slot(item.id) {
        2
    } else {
        1
    }
}

/// Slots a list of items needs, laid out without holes.
pub open spec fn widths(items: Seq<Item>) -> int
    decreases items.len(),
{
    if items.len() == 0 {
        0
    } else {
        item_width(items[0]) + widths(items.drop_first())
    }
}

proof fn lemma_held_skip(s: Seq<Item>, i: int)
    requires
        0 <= i < s.len(),
    ensures
        held(s.skip(i)) == if kept(s[i]) {
            seq![s[i]] + held(s.skip(i + 1))
        } else {
            held(s.skip(i + 1))
        },
{
    assert(s.skip(i).drop_first() =~= s.skip(i + 1));
}

/// The entries of a store are exactly the items the player owns in it.
proof fn lemma_entries_are_held(s: Seq<Item>, i: int)
    requires
        0 <= i <= s.len(),
    ensures
        entry_items(entries_from(s, i)) == held(s.skip(i)),
    decreases s.len() - i,
{
    if i == s.len() {
        assert(s.skip(i) =~= Seq::<Item>::empty());
        assert(entry_items(entries_from(s, i)) =~= Seq::<Item>::empty());
    } else {
        let item = s[i];
        lemma_held_skip(s, i);
        if item.vacant() || item.id == SLOT_TWO_FILLER {
            lemma_entries_are_held(s, i + 1);
        } else if two_slot(item.id) {
            let step: int = if i + 1 < s.len() && s[i + 1].id == SLOT_TWO_FILLER {
                2
            } else {
                1
            };
            lemma_entries_are_held(s, i + step);
            if step == 2 {
                lemma_held_skip(s, i + 1);
            }
            let rest = entries_from(s, i + step);
            assert(entry_items(seq![Entry::Double(item)] + rest) =~= seq![item] + entry_items(rest));
        } else {
            lemma_entries_are_held(s, i + 1);
            let rest = entries_from(s, i + 1);
            assert(entry_items(seq![Entry::Single(item)] + rest) =~= seq![item] + entry_items(rest));
        }
    }
}

/// Overwriting a slot that holds nothing owned adds what is written, when it
/// is owned.
proof fn lemma_held_update(s: Seq<Item>, i: int, x: Item)
    requires
        0 <= i < s.len(),
        !kept(s[i]),
    ensures
        held(s.update(i, x)).to_multiset() == if kept(x) {
            held(s).to_multiset().insert(x)
        } else {
            held(s).to_multiset()
        },
    decreases s.len(),
{
    broadcast use vstd::multiset::group_multiset_axioms, vstd::seq_lib::group_to_multiset_ensures,
        vstd::seq_lib::lemma_multiset_commutative;

    let t = s.update(i, x);
    if i == 0 {
        assert(t.drop_first() =~= s.drop_first());
        if kept(x) {
            assert(held(t).to_multiset() =~= held(s).to_multiset().insert(x));
        }
    } else {
        assert(t.drop_first() =~= s.drop_first().update(i - 1, x));
        lemma_held_update(s.drop_first(), i - 1, x);
        if kept(s[0]) {
            assert(held(t).to_multiset() =~= seq![s[0]].to_multiset().add(held(t.drop_first()).to_multiset()));
            assert(held(s).to_multiset() =~= seq![s[0]].to_multiset().add(held(s.drop_first()).to_multiset()));
        }
        if kept(x) {
            assert(held(t).to_multiset() =~= held(s).to_multiset().insert(x));
        } else {
            assert(held(t).to_multiset() =~= held(s).to_multiset());
        }
    }
}

proof fn lemma_entry_items_remove(p: Seq<Entry>, pos: int)
    requires
        0 <= pos < p.len(),
    ensures
        entry_items(p.remove(pos)) == entry_items(p).remove(pos),
{
    assert(entry_items(p.remove(pos)) =~= entry_items(p).remove(pos));
}

proof fn lemma_widths_remove(items: Seq<Item>, pos: int)
    requires
        0 <= pos < items.len(),
    ensures
        widths(items.remove(pos)) == widths(items) - item_width(items[pos]),
        widths(items) >= item_width(items[pos]),
        widths(items) >= 0,
    decreases items.len(),
{
    if pos == 0 {
        assert(items.remove(0) =~= items.drop_first());
        lemma_widths_nonnegative(items.drop_first());
    } else {
        lemma_widths_remove(items.drop_first(), pos - 1);
        assert(items.remove(pos).drop_first() =~= items.drop_first().remove(pos - 1));
        assert(items.remove(pos)[0] == items[0]);
    }
}

proof fn lemma_widths_nonnegative(items: Seq<Item>)
    ensures
        widths(items) >= 0,
    decreases items.len(),
{
    if items.len() > 0 {
        lemma_widths_nonnegative(items.drop_first());
    }
}

proof fn lemma_widths_positive(items: Seq<Item>)
    requires
        items.len() > 0,
    ensures
        widths(items) >= 1,
{
    lemma_widths_nonnegative(items.drop_first());
}

proof fn lemma_no_single_after_remove(p: Seq<Entry>, pos: int)
    requires
        0 <= pos < p.len(),
        first_single(p, 0) is None,
    ensures
        first_single(p.remove(pos), 0) is None,
{
    lemma_first_single_none(p, 0);
    let q = p.remove(pos);
    if first_single(q, 0) is Some {
        lemma_first_single_range(q, 0);
        let j = first_single(q, 0)->0;
        if j < pos {
            assert(q[j] == p[j]);
        } else {
            assert(q[j] == p[j + 1]);
        }
    }
}

/// Laying out keeps every owned item: what ends up in the slots and what is
/// left over are, together, what was there plus what was pending.
proof fn lemma_lay_conserves(p: Seq<Entry>, c: int, out: Seq<Item>)
    requires
        0 <= c,
        forall|j: int| 0 <= j < p.len() ==> entry_ok(#[trigger] p[j]),
        forall|k: int| c <= k < out.len() ==> (#[trigger] out[k]).vacant(),
    ensures
        held(lay(p, c, out).0).to_multiset().add(entry_items(lay(p, c, out).1).to_multiset())
            == held(out).to_multiset().add(entry_items(p).to_multiset()),
    decreases out.len() - c,
{
    broadcast use vstd::multiset::group_multiset_axioms, vstd::seq_lib::group_to_multiset_ensures;

    if p.len() == 0 || c < 0 {
    } else {
        match chosen(p, c) {
            None => {
                if c < out.len() {
                    lemma_lay_conserves(p, c + 1, out);
                }
            },
            Some(pos) => {
                let e = p[pos];
                if c + e.spec_width() <= out.len() {
                    lemma_first_single_range(p, 0);
                    assert(entry_ok(p[pos]));
                    let placed = place(out, c, e);
                    let rest = p.remove(pos);
                    lemma_held_update(out, c, e.item());
                    if e is Double {
                        let once = out.update(c, e.item());
                        lemma_held_update(once, c + 1, Item::spec_filler());
                    }
                    assert(held(placed).to_multiset() == held(out).to_multiset().insert(e.item()));
                    lemma_entry_items_remove(p, pos);
                    assert(entry_items(p)[pos] == e.item());
                    assert forall|j: int| 0 <= j < rest.len() implies entry_ok(#[trigger] rest[j]) by {
                        if j < pos {
                            assert(rest[j] == p[j]);
                        } else {
                            assert(rest[j] == p[j + 1]);
                        }
                    }
                    lemma_lay_conserves(rest, c + e.spec_width(), placed);
                    assert(entry_items(rest).to_multiset() == entry_items(p).to_multiset().remove(e.item()));
                    assert(entry_items(p).to_multiset().count(e.item()) > 0);
                    assert(held(out).to_multiset().insert(e.item()).add(
                        entry_items(p).to_multiset().remove(e.item()),
                    ) =~= held(out).to_multiset().add(entry_items(p).to_multiset()));
                }
            },
        }
    }
}

/// What laying out needs to place everything: room for every pending entry,
/// with one slot to spare for a hole, or no hole ever needed again.
pub open spec fn room_for_all(p: Seq<Entry>, c: int, len: int) -> bool {
    ||| c + widths(entry_items(p)) <= len - 1
    ||| c + widths(entry_items(p)) <= len && c % 2 == 0 && first_single(p, 0) is None
}

proof fn lemma_lay_fits(p: Seq<Entry>, c: int, out: Seq<Item>)
    requires
        0 <= c,
        forall|j: int| 0 <= j < p.len() ==> entry_ok(#[trigger] p[j]),
        room_for_all(p, c, out.len() as int),
    ensures
        lay(p, c, out).1.len() == 0,
    decreases out.len() - c,
{
    if p.len() == 0 || c < 0 {
    } else {
        lemma_widths_positive(entry_items(p));
        match chosen(p, c) {
            None => {
                lemma_first_single_range(p, 0);
                assert(c < out.len());
                lemma_lay_fits(p, c + 1, out);
            },
            Some(pos) => {
                lemma_first_single_range(p, 0);
                let e = p[pos];
                let rest = p.remove(pos);
                lemma_entry_items_remove(p, pos);
                lemma_widths_remove(entry_items(p), pos);
                assert(entry_items(p)[pos] == e.item());
                assert(entry_ok(e));
                assert(item_width(e.item()) == e.spec_width());
                assert(c + e.spec_width() <= out.len());
                assert(place(out, c, e).len() == out.len());
                assert forall|j: int| 0 <= j < rest.len() implies entry_ok(#[trigger] rest[j]) by {
                    if j < pos {
                        assert(rest[j] == p[j]);
                    } else {
                        assert(rest[j] == p[j + 1]);
                    }
                }
                if first_single(p, 0) is None {
                    lemma_no_single_after_remove(p, pos);
                    lemma_first_single_none(p, 0);
                    assert(!(p[pos] is Single));
                }
                lemma_lay_fits(rest, c + e.spec_width(), place(out, c, e));
            },
        }
    }
}

/// Repair loses nothing and invents nothing: the items the player owned
/// before, counted as a multiset, are the items owned after plus the ones
/// handed back. Fillers and empty slots are not items.
pub proof fn law_repair_keeps_every_item(s: Seq<Item>)
    ensures
        held(s).to_multiset() == held(repaired(s)).to_multiset().add(overflow(s).to_multiset()),
{
    broadcast use vstd::multiset::group_multiset_axioms;

    let out = blank(s.len());
    lemma_entries_ok(s, 0);
    lemma_entries_are_held(s, 0);
    assert(s.skip(0) =~= s);
    lemma_lay_conserves(entries_of(s), 0, out);
    lemma_held_blank(s.len());
    let left = lay(entries_of(s), 0, out).1;
    assert(overflow(s) =~= entry_items(left));
    assert(held(out).to_multiset() =~= vstd::multiset::Multiset::<Item>::empty()) by {
        broadcast use vstd::seq_lib::group_to_multiset_ensures, vstd::multiset::group_multiset_properties;

        assert(held(out).to_multiset().len() == 0);
    }
    assert(held(out).to_multiset().add(held(s).to_multiset()) =~= held(s).to_multiset());
}

proof fn lemma_held_blank(n: nat)
    ensures
        held(blank(n)) == Seq::<Item>::empty(),
    decreases n,
{
    if n > 0 {
        assert(blank(n).drop_first() =~= blank((n - 1) as nat));
        lemma_held_blank((n - 1) as nat);
    }
}

/// Nothing is handed back when the items fit: whenever laying them side by
/// side needs fewer slots than the store has, repair places every one of
/// them, whatever hole alignment may force.
pub proof fn law_repair_fits_what_fits(s: Seq<Item>)
    requires
        widths(held(s)) < s.len(),
    ensures
        overflow(s).len() == 0,
{
    lemma_entries_ok(s, 0);
    lemma_entries_are_held(s, 0);
    assert(s.skip(0) =~= s);
    lemma_lay_fits(entries_of(s), 0, blank(s.len()));
}

// --- Why repair keeps the order ---

/// The items of `items` that take two slots (`wide`) or one, in order.
pub open spec fn of_kind(items: Seq<Item>, wide: bool) -> Seq<Item>
    decreases items.len(),
{
    if items.len() == 0 {
        seq![]
    } else if two_slot(items[0].id) == wide {
        seq![items[0]] + of_kind(items.drop_first(), wide)
    } else {
        of_kind(items.drop_first(), wide)
    }
}

proof fn lemma_of_kind_concat(a: Seq<Item>, b: Seq<Item>, wide: bool)
    ensures
        of_kind(a + b, wide) == of_kind(a, wide) + of_kind(b, wide),
    decreases a.len(),
{
    if a.len() == 0 {
        assert(a + b =~= b);
        assert(of_kind(a, wide) + of_kind(b, wide) =~= of_kind(b, wide));
    } else {
        assert((a + b).drop_first() =~= a.drop_first() + b);
        lemma_of_kind_concat(a.drop_first(), b, wide);
        assert((a + b)[0] == a[0]);
        if two_slot(a[0].id) == wide {
            assert(seq![a[0]] + (of_kind(a.drop_first(), wide) + of_kind(b, wide)) =~= (seq![a[0]]
                + of_kind(a.drop_first(), wide)) + of_kind(b, wide));
        }
    }
}

proof fn lemma_held_concat(a: Seq<Item>, b: Seq<Item>)
    ensures
        held(a + b) == held(a) + held(b),
    decreases a.len(),
{
    if a.len() == 0 {
        assert(a + b =~= b);
        assert(held(a) + held(b) =~= held(b));
    } else {
        assert((a + b).drop_first() =~= a.drop_first() + b);
        lemma_held_concat(a.drop_first(), b);
        assert((a + b)[0] == a[0]);
        if kept(a[0]) {
            assert(seq![a[0]] + (held(a.drop_first()) + held(b)) =~= (seq![a[0]] + held(
                a.drop_first(),
            )) + held(b));
        }
    }
}

proof fn lemma_held_none(s: Seq<Item>)
    requires
        forall|k: int| 0 <= k < s.len() ==> !kept(#[trigger] s[k]),
    ensures
        held(s) == Seq::<Item>::empty(),
    decreases s.len(),
{
    if s.len() > 0 {
        assert(!kept(s[0]));
        lemma_held_none(s.drop_first());
    }
}

/// Writing an owned item at `c`, with nothing owned from `c` on, appends it
/// to what is owned; a filler written after it adds nothing.
proof fn lemma_held_place(out: Seq<Item>, c: int, e: Entry)
    requires
        0 <= c,
        c + e.spec_width() <= out.len(),
        entry_ok(e),
        forall|k: int| c <= k < out.len() ==> (#[trigger] out[k]).vacant(),
    ensures
        held(place(out, c, e)) == held(out).push(e.item()),
{
    let placed = place(out, c, e);
    let w = e.spec_width();
    assert(out =~= out.take(c) + out.skip(c));
    lemma_held_concat(out.take(c), out.skip(c));
    lemma_held_none(out.skip(c));
    assert(placed =~= out.take(c) + (placed.subrange(c, c + w) + placed.skip(c + w)));
    lemma_held_concat(out.take(c), placed.subrange(c, c + w) + placed.skip(c + w));
    lemma_held_concat(placed.subrange(c, c + w), placed.skip(c + w));
    assert forall|k: int| 0 <= k < placed.skip(c + w).len() implies !kept(#[trigger] placed.skip(c + w)[k]) by {
        assert(placed.skip(c + w)[k] == out[c + w + k]);
    }
    lemma_held_none(placed.skip(c + w));
    let mid = placed.subrange(c, c + w);
    assert(kept(e.item()));
    if w == 1 {
        assert(mid =~= seq![e.item()]);
        assert(mid.drop_first() =~= Seq::<Item>::empty());
        assert(held(mid.drop_first()) == Seq::<Item>::empty());
        assert(held(mid) =~= seq![e.item()]);
    } else {
        assert(mid =~= seq![e.item(), Item::spec_filler()]);
        assert(mid.drop_first() =~= seq![Item::spec_filler()]);
        assert(mid.drop_first().drop_first() =~= Seq::<Item>::empty());
        assert(held(mid.drop_first().drop_first()) == Seq::<Item>::empty());
        assert(!kept(mid.drop_first()[0]));
        assert(held(mid.drop_first()) == Seq::<Item>::empty());
        assert(held(mid) =~= seq![e.item()]);
    }
    assert(held(out.take(c)) + seq![e.item()] + Seq::<Item>::empty() =~= (held(out.take(c))
        + Seq::<Item>::empty()).push(e.item()));
}

proof fn lemma_of_kind_push(a: Seq<Item>, x: Item, wide: bool)
    ensures
        of_kind(a.push(x), wide) == if two_slot(x.id) == wide {
            of_kind(a, wide).push(x)
        } else {
            of_kind(a, wide)
        },
{
    lemma_of_kind_concat(a, seq![x], wide);
    assert(a.push(x) =~= a + seq![x]);
    assert(seq![x].drop_first() =~= Seq::<Item>::empty());
    assert(of_kind(seq![x].drop_first(), wide) == Seq::<Item>::empty());
    assert(seq![x][0] == x);
    if two_slot(x.id) == wide {
        assert(of_kind(seq![x], wide) =~= seq![x]);
    } else {
        assert(of_kind(seq![x], wide) =~= Seq::<Item>::empty());
    }
    assert(of_kind(a, wide) + Seq::<Item>::empty() =~= of_kind(a, wide));
}

/// Taking out the entry that laying out places: the first single of a kind,
/// or the first entry, removes the first item of its kind.
proof fn lemma_of_kind_take(p: Seq<Entry>, pos: int, wide: bool)
    requires
        0 <= pos < p.len(),
        forall|j: int| 0 <= j < p.len() ==> entry_ok(#[trigger] p[j]),
        forall|j: int| 0 <= j < pos ==> (#[trigger] p[j]) is Double,
        p[pos] is Double ==> pos == 0,
    ensures
        of_kind(entry_items(p), wide) == if two_slot(p[pos].item().id) == wide {
            seq![p[pos].item()] + of_kind(entry_items(p.remove(pos)), wide)
        } else {
            of_kind(entry_items(p.remove(pos)), wide)
        },
    decreases pos,
{
    let items = entry_items(p);
    assert(items.drop_first() =~= entry_items(p.drop_first()));
    if pos == 0 {
        assert(p.remove(0) =~= p.drop_first());
    } else {
        assert(p[0] is Double && entry_ok(p[0]));
        assert(p.drop_first().remove(pos - 1) =~= p.remove(pos).drop_first());
        assert forall|j: int| 0 <= j < p.drop_first().len() implies entry_ok(#[trigger] p.drop_first()[j]) by {
            assert(p.drop_first()[j] == p[j + 1]);
        }
        assert forall|j: int| 0 <= j < pos - 1 implies (#[trigger] p.drop_first()[j]) is Double by {
            assert(p.drop_first()[j] == p[j + 1]);
        }
        lemma_of_kind_take(p.drop_first(), pos - 1, wide);
        let rest = entry_items(p.remove(pos));
        assert(rest.drop_first() =~= entry_items(p.remove(pos).drop_first()));
        assert(rest[0] == items[0]);
        assert(two_slot(items[0].id));
        if wide && two_slot(p[pos].item().id) == wide {
            assert(seq![items[0]] + (seq![p[pos].item()] + of_kind(entry_items(p.drop_first().remove(pos - 1)), wide))
                =~= seq![p[pos].item()] + (seq![items[0]] + of_kind(entry_items(p.drop_first().remove(pos - 1)), wide)));
        }
    }
}

/// Laying out keeps the order of each kind: the one-slot items placed, then
/// those left over, are the one-slot items there were, in order; the same for
/// two-slot items.
proof fn lemma_lay_keeps_order(p: Seq<Entry>, c: int, out: Seq<Item>, wide: bool)
    requires
        0 <= c,
        forall|j: int| 0 <= j < p.len() ==> entry_ok(#[trigger] p[j]),
        forall|k: int| c <= k < out.len() ==> (#[trigger] out[k]).vacant(),
    ensures
        of_kind(held(lay(p, c, out).0), wide) + of_kind(entry_items(lay(p, c, out).1), wide)
            == of_kind(held(out), wide) + of_kind(entry_items(p), wide),
    decreases out.len() - c,
{
    if p.len() == 0 || c < 0 {
    } else {
        match chosen(p, c) {
            None => {
                if c < out.len() {
                    lemma_lay_keeps_order(p, c + 1, out, wide);
                }
            },
            Some(pos) => {
                let e = p[pos];
                if c + e.spec_width() <= out.len() {
                    lemma_first_single_range(p, 0);
                    if c % 2 == 1 {
                        lemma_first_single_before(p, 0, pos);
                    }
                    let placed = place(out, c, e);
                    let rest = p.remove(pos);
                    assert forall|j: int| 0 <= j < rest.len() implies entry_ok(#[trigger] rest[j]) by {
                        if j < pos {
                            assert(rest[j] == p[j]);
                        } else {
                            assert(rest[j] == p[j + 1]);
                        }
                    }
                    assert forall|k: int| c + e.spec_width() <= k < placed.len() implies (#[trigger] placed[k]).vacant() by {
                        assert(placed[k] == out[k]);
                    }
                    lemma_lay_keeps_order(rest, c + e.spec_width(), placed, wide);
                    lemma_held_place(out, c, e);
                    lemma_of_kind_push(held(out), e.item(), wide);
                    lemma_of_kind_take(p, pos, wide);
                    let a = of_kind(held(out), wide);
                    let r = of_kind(entry_items(rest), wide);
                    if two_slot(e.item().id) == wide {
                        assert(a.push(e.item()) + r =~= a + (seq![e.item()] + r));
                    }
                }
            },
        }
    }
}

proof fn lemma_first_single_before(p: Seq<Entry>, k: int, pos: int)
    requires
        0 <= k,
        first_single(p, k) == Some(pos),
    ensures
        forall|j: int| k <= j < pos ==> (#[trigger] p[j]) is Double,
    decreases p.len() - k,
{
    if k < p.len() && !(p[k] is Single) {
        lemma_first_single_before(p, k + 1, pos);
    }
}

/// Repair keeps the order of each kind of item: the one-slot items left in
/// the store, followed by the one-slot items handed back, are the one-slot
/// items there were, in the order they were; and the same for two-slot items.
/// A one-slot item pulled forward to fill an odd slot moves past two-slot
/// items only, never past another one-slot item.
pub proof fn law_repair_keeps_order(s: Seq<Item>, wide: bool)
    ensures
        of_kind(held(s), wide) == of_kind(held(repaired(s)), wide) + of_kind(overflow(s), wide),
{
    let out = blank(s.len());
    lemma_entries_ok(s, 0);
    lemma_entries_are_held(s, 0);
    assert(s.skip(0) =~= s);
    lemma_lay_keeps_order(entries_of(s), 0, out, wide);
    lemma_held_blank(s.len());
    let left = lay(entries_of(s), 0, out).1;
    assert(overflow(s) =~= entry_items(left));
    assert(of_kind(held(out), wide) =~= Seq::<Item>::empty());
    assert(Seq::<Item>::empty() + of_kind(held(s), wide) =~= of_kind(held(s), wide));
}

// --- Why a second repair changes nothing ---

/// What a repair leaves behind beyond the rules: empty slots and fillers in
/// their plain form, and no one-slot item after a hole.
pub open spec fn settled(t: Seq<Item>) -> bool {
    &&& valid_layout(t)
    &&& forall|k: int| 0 <= k < t.len() && (#[trigger] t[k]).vacant() ==> t[k] == Item::spec_empty()
    &&& forall|k: int| 0 <= k < t.len() && (#[trigger] t[k]).id == SLOT_TWO_FILLER ==> t[k] == Item::spec_filler()
    &&& forall|i: int, j: int| 0 <= i < j < t.len() && (#[trigger] t[i]).vacant() ==> !plain(#[trigger] t[j])
}

/// What holds while laying out from blank slots.
pub open spec fn settling(p: Seq<Entry>, c: int, out: Seq<Item>) -> bool {
    &&& 0 <= c
    &&& forall|j: int| 0 <= j < p.len() ==> entry_ok(#[trigger] p[j])
    &&& forall|k: int| c <= k < out.len() ==> (#[trigger] out[k]).vacant()
    &&& forall|k: int| 0 <= k < out.len() && (#[trigger] out[k]).vacant() ==> out[k] == Item::spec_empty()
    &&& forall|k: int| 0 <= k < out.len() && (#[trigger] out[k]).id == SLOT_TWO_FILLER ==> out[k] == Item::spec_filler()
    &&& forall|k: int|
        0 <= k < c && k < out.len() && (#[trigger] out[k]).vacant() ==> first_single(p, 0) is None
    &&& forall|k: int, m: int|
        0 <= k < m < c && m < out.len() && (#[trigger] out[k]).vacant() ==> !plain(#[trigger] out[m])
}

proof fn lemma_lay_settles(p: Seq<Entry>, c: int, out: Seq<Item>)
    requires
        settling(p, c, out),
    ensures
        ({
            let t = lay(p, c, out).0;
            &&& forall|k: int| 0 <= k < t.len() && (#[trigger] t[k]).vacant() ==> t[k] == Item::spec_empty()
            &&& forall|k: int| 0 <= k < t.len() && (#[trigger] t[k]).id == SLOT_TWO_FILLER ==> t[k] == Item::spec_filler()
            &&& forall|i: int, j: int| 0 <= i < j < t.len() && (#[trigger] t[i]).vacant() ==> !plain(#[trigger] t[j])
        }),
    decreases out.len() - c,
{
    if p.len() == 0 || c < 0 {
        assert(lay(p, c, out).0 == out);
        assert forall|i: int, j: int| 0 <= i < j < out.len() && (#[trigger] out[i]).vacant() implies !plain(
            #[trigger] out[j],
        ) by {
            if j >= c {
                assert(out[j].vacant());
            }
        }
    } else {
        lemma_first_single_range(p, 0);
        match chosen(p, c) {
            None => {
                if c >= out.len() {
                    assert(lay(p, c, out).0 == out);
                    assert forall|i: int, j: int|
                        0 <= i < j < out.len() && (#[trigger] out[i]).vacant() implies !plain(#[trigger] out[j]) by {
                        assert(j < c);
                    }
                } else {
                    assert(c % 2 == 1 && first_single(p, 0) is None);
                    assert forall|k: int, m: int|
                        0 <= k < m < c + 1 && m < out.len() && (#[trigger] out[k]).vacant() implies !plain(
                            #[trigger] out[m],
                        ) by {
                        if m == c {
                            assert(out[c].vacant());
                        }
                    }
                    lemma_lay_settles(p, c + 1, out);
                    assert(lay(p, c, out) == lay(p, c + 1, out));
                }
            },
            Some(pos) => {
                let e = p[pos];
                if c + e.spec_width() > out.len() {
                    assert(lay(p, c, out).0 == out);
                    assert forall|i: int, j: int|
                        0 <= i < j < out.len() && (#[trigger] out[i]).vacant() implies !plain(#[trigger] out[j]) by {
                        if j >= c {
                            assert(out[j].vacant());
                        }
                    }
                } else {
                    let placed = place(out, c, e);
                    let rest = p.remove(pos);
                    let w = e.spec_width();
                    assert(entry_ok(e));
                    assert(placed.len() == out.len());
                    let hole = exists|k: int| 0 <= k < c && k < out.len() && #[trigger] out[k].vacant();
                    if hole {
                        let k = choose|k: int| 0 <= k < c && k < out.len() && #[trigger] out[k].vacant();
                        assert(first_single(p, 0) is None);
                        lemma_first_single_none(p, 0);
                        assert(e is Double);
                        lemma_no_single_after_remove(p, pos);
                    }
                    assert forall|j: int| 0 <= j < rest.len() implies entry_ok(#[trigger] rest[j]) by {
                        if j < pos {
                            assert(rest[j] == p[j]);
                        } else {
                            assert(rest[j] == p[j + 1]);
                        }
                    }
                    assert forall|k: int| c + w <= k < placed.len() implies (#[trigger] placed[k]).vacant() by {
                        assert(placed[k] == out[k]);
                    }
                    assert forall|k: int| 0 <= k < placed.len() && (#[trigger] placed[k]).vacant() implies placed[k]
                        == Item::spec_empty() by {
                        assert(k < c || k >= c + w);
                        assert(placed[k] == out[k]);
                    }
                    assert forall|k: int| 0 <= k < placed.len() && (#[trigger] placed[k]).id == SLOT_TWO_FILLER implies placed[k]
                        == Item::spec_filler() by {
                        if k < c || k >= c + w {
                            assert(placed[k] == out[k]);
                        }
                    }
                    assert forall|k: int| 0 <= k < c + w && k < placed.len() && (#[trigger] placed[k]).vacant() implies first_single(
                        rest,
                        0,
                    ) is None by {
                        assert(k < c);
                        assert(placed[k] == out[k]);
                        lemma_first_single_none(p, 0);
                        assert(e is Double);
                        lemma_no_single_after_remove(p, pos);
                    }
                    assert forall|k: int, m: int|
                        0 <= k < m < c + w && m < placed.len() && (#[trigger] placed[k]).vacant() implies !plain(
                            #[trigger] placed[m],
                        ) by {
                        assert(k < c);
                        assert(placed[k] == out[k]);
                        if m < c {
                            assert(placed[m] == out[m]);
                        } else {
                            lemma_first_single_none(p, 0);
                            assert(e is Double);
                        }
                    }
                    assert(settling(rest, c + w, placed));
                    lemma_lay_settles(rest, c + w, placed);
                    assert(lay(p, c, out) == lay(rest, c + w, placed));
                }
            },
        }
    }
}

/// Two empty slots in a row leave nothing owned after them in a layout that
/// keeps the packing rule.
proof fn lemma_two_holes_end(t: Seq<Item>, i: int)
    requires
        packed(t),
        1 <= i < t.len(),
        t[i - 1].vacant(),
        t[i].vacant(),
    ensures
        entries_from(t, i).len() == 0,
    decreases t.len() - i,
{
    assert(entries_from(t, i) == entries_from(t, i + 1));
    if i + 1 < t.len() {
        if t[i + 1].vacant() {
            lemma_two_holes_end(t, i + 1);
        } else {
            assert(!(t[i + 1]).vacant() && t[i].vacant());
            assert(!t[i - 1].vacant());
        }
    }
}

proof fn lemma_no_plain_no_single(t: Seq<Item>, i: int)
    requires
        0 <= i,
        forall|j: int| i <= j < t.len() ==> !plain(#[trigger] t[j]),
    ensures
        first_single(entries_from(t, i), 0) is None,
    decreases t.len() - i,
{
    if 0 <= i < t.len() {
        let item = t[i];
        if item.vacant() || item.id == SLOT_TWO_FILLER {
            lemma_no_plain_no_single(t, i + 1);
        } else {
            assert(two_slot(item.id));
            let step: int = if i + 1 < t.len() && t[i + 1].id == SLOT_TWO_FILLER {
                2
            } else {
                1
            };
            lemma_no_plain_no_single(t, i + step);
            let rest = entries_from(t, i + step);
            let all = seq![Entry::Double(item)] + rest;
            if first_single(all, 0) is Some {
                lemma_first_single_range(all, 0);
                let j = first_single(all, 0)->0;
                assert(j >= 1);
                assert(all[j] == rest[j - 1]);
                lemma_first_single_none(rest, 0);
            }
        }
    }
}

proof fn lemma_no_entries_all_empty(t: Seq<Item>, i: int)
    requires
        0 <= i <= t.len(),
        !broken(t),
        i < t.len() ==> t[i].id != SLOT_TWO_FILLER,
        entries_from(t, i).len() == 0,
    ensures
        forall|k: int| i <= k < t.len() ==> (#[trigger] t[k]).vacant(),
    decreases t.len() - i,
{
    if i < t.len() {
        let item = t[i];
        assert(item.vacant());
        if i + 1 < t.len() {
            if t[i + 1].id == SLOT_TWO_FILLER {
                assert(breaks_pairing(t, i + 1));
            }
        }
        lemma_no_entries_all_empty(t, i + 1);
    }
}

/// Laying a settled layout's entries out again rebuilds it exactly.
proof fn lemma_relay(t: Seq<Item>, c: int, out: Seq<Item>)
    requires
        settled(t),
        0 <= c <= t.len(),
        c < t.len() ==> t[c].id != SLOT_TWO_FILLER,
        out == t.take(c) + blank((t.len() - c) as nat),
    ensures
        lay(entries_from(t, c), c, out) == (t, Seq::<Entry>::empty()),
    decreases t.len() - c,
{
    let p = entries_from(t, c);
    assert(out.len() == t.len());
    if p.len() == 0 {
        lemma_no_entries_all_empty(t, c);
        assert(out =~= t);
        assert(p =~= Seq::<Entry>::empty());
    } else {
        assert(c < t.len());
        let item = t[c];
        if item.vacant() {
            assert(p == entries_from(t, c + 1));
            assert(c + 1 < t.len()) by {
                if c + 1 >= t.len() {
                    assert(entries_from(t, c + 1).len() == 0);
                }
            }
            if t[c + 1].vacant() {
                if c >= 1 && t[c - 1].vacant() {
                    lemma_two_holes_end(t, c);
                } else {
                    lemma_two_holes_end(t, c + 1);
                }
            }
            assert(!t[c + 1].vacant() && t[c].vacant());
            assert(c % 2 == 1 && two_slot(t[c + 1].id));
            assert forall|j: int| c + 1 <= j < t.len() implies !plain(#[trigger] t[j]) by {
                assert(t[c].vacant());
            }
            lemma_no_plain_no_single(t, c + 1);
            assert(chosen(p, c) is None);
            assert(t[c] == Item::spec_empty());
            assert(t.take(c + 1) + blank((t.len() - c - 1) as nat) =~= out);
            lemma_relay(t, c + 1, out);
        } else if two_slot(item.id) {
            assert(c % 2 == 0);
            assert(!breaks_pairing(t, c));
            assert(t[c + 1].id == SLOT_TWO_FILLER);
            assert(t[c + 1] == Item::spec_filler());
            let rest = entries_from(t, c + 2);
            assert(p == seq![Entry::Double(item)] + rest);
            assert(chosen(p, c) == Some(0int));
            assert(p.remove(0) =~= rest);
            let placed = place(out, c, Entry::Double(item));
            assert(placed =~= t.take(c + 2) + blank((t.len() - c - 2) as nat));
            if c + 2 < t.len() && t[c + 2].id == SLOT_TWO_FILLER {
                assert(!breaks_pairing(t, c + 2));
            }
            lemma_relay(t, c + 2, placed);
        } else {
            assert(item.id != SLOT_TWO_FILLER);
            assert(plain(item));
            let rest = entries_from(t, c + 1);
            assert(p == seq![Entry::Single(item)] + rest);
            assert(first_single(p, 0) == Some(0int));
            assert(chosen(p, c) == Some(0int));
            assert(p.remove(0) =~= rest);
            let placed = place(out, c, Entry::Single(item));
            assert(placed =~= t.take(c + 1) + blank((t.len() - c - 1) as nat));
            if c + 1 < t.len() && t[c + 1].id == SLOT_TWO_FILLER {
                assert(!breaks_pairing(t, c + 1));
            }
            lemma_relay(t, c + 1, placed);
        }
    }
}

/// A second repair changes nothing and hands nothing back: what repair
/// leaves is already in the form repair produces.
pub proof fn law_repair_is_idempotent(s: Seq<Item>)
    ensures
        repaired(repaired(s)) == repaired(s),
        overflow(repaired(s)).len() == 0,
{
    let out = blank(s.len());
    let t = repaired(s);
    lemma_entries_ok(s, 0);
    law_repair_is_valid(s);
    lemma_lay_length(s);
    assert(settling(entries_of(s), 0, out));
    lemma_lay_settles(entries_of(s), 0, out);
    assert(settled(t));
    assert(t.take(0) + blank(t.len()) =~= blank(t.len()));
    if t.len() > 0 && t[0].id == SLOT_TWO_FILLER {
        assert(breaks_pairing(t, 0));
    }
    lemma_relay(t, 0, blank(t.len()));
}

} // verus!
