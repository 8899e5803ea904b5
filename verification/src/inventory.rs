//! The game's inventory data structures.

use vstd::prelude::*;

use crate::bytes::{le_i32, read_i32};

verus! {

/// Slots the game itself allocates per character.
pub const BAG_SIZE: usize = 6;

/// Filler placed in the second slot of a two-slot item.
pub const SLOT_TWO_FILLER: i32 = 180;

/// Items that occupy two slots.
pub const TWO_SLOT_ITEMS: [i32; 9] = [5, 6, 7, 8, 9, 11, 12, 23, 104];

/// Whether an item id occupies two slots: hunting gun, shotgun, the three
/// grenade launcher loads, sub-machine gun, the unnamed weapon, rocket
/// launcher and hookshot.
pub open spec fn two_slot(id: i32) -> bool {
    id == 5 || id == 6 || id == 7 || id == 8 || id == 9 || id == 11 || id == 12 || id == 23
        || id == 104
}

pub fn is_two_slot(id: i32) -> (r: bool)
    ensures
        r == two_slot(id),
{
    id == 5 || id == 6 || id == 7 || id == 8 || id == 9 || id == 11 || id == 12 || id == 23
        || id == 104
}

/// One inventory entry. 8 bytes.
#[derive(Clone, Copy, PartialEq, Eq, Debug, Structural)]
pub struct Item {
    pub id: i32,
    pub count: i32,
}

impl Item {
    /// An unoccupied slot, as a value. The game marks these with id zero.
    pub open spec fn spec_empty() -> Item {
        Item { id: 0, count: 0 }
    }

    /// An unoccupied slot. The game marks these with id zero.
    pub fn empty() -> (r: Item)
        ensures
            r == Item::spec_empty(),
    {
        Item { id: 0, count: 0 }
    }

    /// The entry that occupies the second slot of a two-slot item.
    pub open spec fn spec_filler() -> Item {
        Item { id: SLOT_TWO_FILLER, count: 0 }
    }

    pub fn filler() -> (r: Item)
        ensures
            r == Item::spec_filler(),
    {
        Item { id: SLOT_TWO_FILLER, count: 0 }
    }

    pub open spec fn vacant(self) -> bool {
        self.id == 0
    }

    pub fn is_empty(&self) -> (r: bool)
        ensures
            r == self.vacant(),
    {
        self.id == 0
    }
}

impl Default for Item {
    fn default() -> (r: Item)
        ensures
            r == (Item { id: 0, count: 0 }),
    {
        Item { id: 0, count: 0 }
    }
}

/// A character's inventory as the game stores it. 64 bytes.
#[derive(Clone, Copy, Debug)]
pub struct Bag {
    pub unknown00: i32,
    pub items: [Item; BAG_SIZE],
    pub personal_item: Item,
    pub equipped_index: i32,
}

/// Size assumed by every caller in the game that embeds a Bag inline.
pub const BAG_BYTES: usize = 64;

/// The item decoded from the eight bytes at `at`: the id, then the count.
pub open spec fn item_at(b: Seq<u8>, at: int) -> Item {
    Item { id: le_i32(b, at), count: le_i32(b, at + 4) }
}

/// Whether a bag is consistent with the game's own rules.
pub open spec fn plausible(bag: Bag) -> bool {
    &&& -1 <= bag.equipped_index < BAG_SIZE
    &&& forall|i: int|
        0 <= i < BAG_SIZE ==> {
            let item = #[trigger] bag.items@[i];
            &&& 0 <= item.id <= 255
            &&& 0 <= item.count <= 999
            &&& item.id == SLOT_TWO_FILLER ==> i % 2 == 1
            &&& two_slot(item.id) ==> i % 2 == 0 && bag.items@[i + 1].id == SLOT_TWO_FILLER
        }
}

impl Bag {
    /// Two bags are the same when every field is.
    pub open spec fn same(self, other: Bag) -> bool {
        &&& self.unknown00 == other.unknown00
        &&& self.items@ == other.items@
        &&& self.personal_item == other.personal_item
        &&& self.equipped_index == other.equipped_index
    }

    /// Whether two bags hold the same values everywhere.
    pub fn equals(&self, other: &Bag) -> (r: bool)
        ensures
            r == self.same(*other),
    {
        let mut i: usize = 0;
        while i < BAG_SIZE
            invariant
                i <= BAG_SIZE,
                forall|j: int| 0 <= j < i ==> self.items@[j] == other.items@[j],
            decreases BAG_SIZE - i,
        {
            if self.items[i] != other.items[i] {
                return false;
            }
            i += 1;
        }
        assert(self.items@ =~= other.items@);
        self.unknown00 == other.unknown00 && self.personal_item == other.personal_item
            && self.equipped_index == other.equipped_index
    }

    /// Reads a Bag out of a raw 64-byte buffer.
    pub fn from_bytes(buf: &[u8; BAG_BYTES]) -> (r: Bag)
        ensures
            r.unknown00 == le_i32(buf@, 0),
            forall|i: int| 0 <= i < BAG_SIZE ==> r.items@[i] == item_at(buf@, 4 + 8 * i),
            r.personal_item == item_at(buf@, 0x34),
            r.equipped_index == le_i32(buf@, 0x3C),
    {
        let b = buf.as_slice();
        let mut items = [Item::empty(); BAG_SIZE];
        let mut i: usize = 0;
        while i < BAG_SIZE
            invariant
                i <= BAG_SIZE,
                b@ == buf@,
                b@.len() == BAG_BYTES,
                forall|j: int| 0 <= j < i ==> items@[j] == item_at(b@, 4 + 8 * j),
            decreases BAG_SIZE - i,
        {
            let o = 4 + i * 8;
            items[i] = Item { id: read_i32(b, o), count: read_i32(b, o + 4) };
            i += 1;
        }
        Bag {
            unknown00: read_i32(b, 0),
            items,
            personal_item: Item { id: read_i32(b, 0x34), count: read_i32(b, 0x38) },
            equipped_index: read_i32(b, 0x3C),
        }
    }

    /// Whether the contents are consistent with the game's own rules. Used to
    /// rank probe candidates: random memory almost never satisfies all of these.
    pub fn looks_plausible(&self) -> (r: bool)
        ensures
            r == plausible(*self),
    {
        if !(-1 <= self.equipped_index && self.equipped_index < BAG_SIZE as i32) {
            return false;
        }
        let mut i: usize = 0;
        while i < BAG_SIZE
            invariant
                i <= BAG_SIZE,
                forall|j: int|
                    0 <= j < i ==> {
                        let item = #[trigger] self.items@[j];
                        &&& 0 <= item.id <= 255
                        &&& 0 <= item.count <= 999
                        &&& item.id == SLOT_TWO_FILLER ==> j % 2 == 1
                        &&& two_slot(item.id) ==> j % 2 == 0 && self.items@[j + 1].id
                            == SLOT_TWO_FILLER
                    },
            decreases BAG_SIZE - i,
        {
            let item = self.items[i];
            if item.id < 0 || item.id > 255 || item.count < 0 || item.count > 999 {
                return false;
            }
            if item.id == SLOT_TWO_FILLER && i % 2 == 0 {
                return false;
            }
            if is_two_slot(item.id) {
                if i % 2 != 0 {
                    return false;
                }
                if self.items[i + 1].id != SLOT_TWO_FILLER {
                    return false;
                }
            }
            i += 1;
        }
        true
    }
}


/// The two-slot items are exactly those of the table: an id takes two slots
/// when, and only when, `TWO_SLOT_ITEMS` lists it.
pub proof fn law_two_slot_items_are_the_table(id: i32)
    ensures
        two_slot(id) <==> exists|k: int| 0 <= k < 9 && TWO_SLOT_ITEMS[k] == id,
        two_slot(id) <==> TWO_SLOT_ITEMS@.contains(id),
        two_slot(104) && two_slot(23) && !two_slot(SLOT_TWO_FILLER) && !two_slot(0),
{
    let t = TWO_SLOT_ITEMS@;
    assert(t =~= seq![5i32, 6, 7, 8, 9, 11, 12, 23, 104]);
    if two_slot(id) {
        let k: int = if id == 5 { 0 } else if id == 6 { 1 } else if id == 7 { 2 } else if id == 8 {
            3
        } else if id == 9 { 4 } else if id == 11 { 5 } else if id == 12 { 6 } else if id == 23 {
            7
        } else { 8 };
        assert(TWO_SLOT_ITEMS[k] == id);
        assert(t[k] == id);
    }
    if exists|k: int| 0 <= k < 9 && TWO_SLOT_ITEMS[k] == id {
        let k = choose|k: int| 0 <= k < 9 && TWO_SLOT_ITEMS[k] == id;
        assert(t[k] == id);
    }
    if t.contains(id) {
        let k = choose|k: int| 0 <= k < t.len() && t[k] == id;
        assert(TWO_SLOT_ITEMS[k] == id);
    }
}

} // verus!
