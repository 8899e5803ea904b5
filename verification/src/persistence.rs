//! Making the extra slots and the box survive a save and a reload.
//!
//! The game's save holds a six-slot bag per character, so that is all that
//! reaches it. What the stores hold beyond the six, and the whole box, go to
//! the side file instead, one record per save slot.
//!
//! Saving is answered on the spot: the stores hold what the player has.
//! Loading cannot be. The game copies the slot into its own bags after the
//! moment the load is heard of, so the load only stages what it read, and the
//! registry applies it once the game's bags match what was recorded. The box
//! has no bag in the game to be checked against, so it is trusted exactly as
//! far as the bags are: its contents wait until a bag restore has matched.
//!
//! Reading and writing the file is the host's; this module decides what goes
//! into it and what comes out.

use vstd::prelude::*;

use crate::inventory::{Item, BAG_SIZE};
use crate::item_box::ItemBox;
use crate::registry::{Registry, Restore, MAX_SLOTS};
use crate::save_file::{
    index_of_slot, law_put_then_get, with_record, without_record, SaveFile, SlotData, SlotView, StoreData,
    StoreView,
};
use crate::slots::{copy_items, empties};

verus! {

/// Save slots the game has.
pub const SAVE_SLOTS: u32 = 20;

/// How long the box's contents wait for a bag to vouch for the file, in
/// milliseconds. Mirrors the registry's own staging lifetime.
pub const BOX_LIFETIME_MS: u64 = 60_000;

/// Items actually present in a list, ignoring the empty padding.
pub fn occupied(items: &[Item]) -> (r: usize)
    ensures
        r == items@.len() - empties(items@),
{
    let mut n: usize = 0;
    let mut i: usize = 0;
    while i < items.len()
        invariant
            i <= items@.len(),
            n == i - empties(items@.take(i as int)),
            empties(items@.take(i as int)) <= i,
        decreases items@.len() - i,
    {
        assert(items@.take(i + 1).drop_last() =~= items@.take(i as int));
        if !items[i].is_empty() {
            n += 1;
        }
        i += 1;
    }
    assert(items@.take(items@.len() as int) =~= items@);
    n
}

fn copy_store(store: &StoreData) -> (r: StoreData)
    ensures
        r@ == store@,
{
    StoreData { offset: store.offset, position: store.position, items: copy_items(&store.items) }
}

fn copy_stores(stores: &Vec<StoreData>) -> (r: Vec<StoreData>)
    ensures
        r@.map_values(|s: StoreData| s@) == stores@.map_values(|s: StoreData| s@),
{
    let mut out: Vec<StoreData> = Vec::new();
    let mut i: usize = 0;
    while i < stores.len()
        invariant
            i <= stores@.len(),
            out@.len() == i,
            forall|j: int| 0 <= j < i ==> (#[trigger] out@[j])@ == stores@[j]@,
        decreases stores@.len() - i,
    {
        let copy = copy_store(&stores[i]);
        out.push(copy);
        i += 1;
    }
    assert(out@.map_values(|s: StoreData| s@) =~= stores@.map_values(|s: StoreData| s@));
    out
}

/// The store a snapshot entry records: the bag offset and the position are
/// narrowed to the file's fields.
pub open spec fn recorded(entry: (usize, usize, Vec<Item>)) -> StoreView {
    StoreView { offset: entry.0 as u32, position: entry.1 as u16, items: entry.2@ }
}

/// The record a save writes for `slot`: the stores as they stand and the box
/// as it stands; but what the session does not own is carried forward from
/// the record already there, never replaced by nothing. With the box switched
/// off there is no box to ask, and with no store registered there are no
/// stores.
pub open spec fn saved_record(
    before: Seq<SlotData>,
    slot: u8,
    snapshot: Seq<(usize, usize, Vec<Item>)>,
    box_items: Option<Seq<Item>>,
) -> SlotView {
    let previous = match index_of_slot(before, slot) {
        Some(i) => Some(before[i]@),
        None => None,
    };
    SlotView {
        slot,
        box_items: match box_items {
            Some(items) => items,
            None => match previous {
                Some(p) => p.box_items,
                None => Seq::empty(),
            },
        },
        stores: if snapshot.len() == 0 {
            match previous {
                Some(p) => p.stores,
                None => Seq::empty(),
            }
        } else {
            snapshot.map_values(|e: (usize, usize, Vec<Item>)| recorded(e))
        },
    }
}

/// Records what a save to `slot` leaves beside the game's own save:
/// `snapshot` is every store as it stands and `box_items` the box's contents,
/// when there is a box. A slot the game does not have is not recorded.
pub fn record_save(
    file: &mut SaveFile,
    slot: u32,
    snapshot: Vec<(usize, usize, Vec<Item>)>,
    box_items: Option<Vec<Item>>,
) -> (r: bool)
    ensures
        r == (slot < SAVE_SLOTS),
        !r ==> final(file).slots@ == old(file).slots@,
        r ==> exists|data: SlotData|
            #![trigger with_record(old(file).slots@, data)]
            final(file).slots@ == with_record(old(file).slots@, data) && data@ == saved_record(
                old(file).slots@,
                slot as u8,
                snapshot@,
                match box_items {
                    Some(b) => Some(b@),
                    None => None,
                },
            ),
{
    if slot >= SAVE_SLOTS {
        return false;
    }
    let key = slot as u8;
    let ghost before = file.slots@;
    let ghost box_view = match &box_items {
        Some(b) => Some(b@),
        None => None,
    };
    let previous = file.get(key);
    let kept_box: Vec<Item> = match box_items {
        Some(items) => items,
        None => match previous {
            Some(p) => copy_items(&p.box_items),
            None => Vec::new(),
        },
    };
    let stores: Vec<StoreData> = if snapshot.len() == 0 {
        match previous {
            Some(p) => copy_stores(&p.stores),
            None => Vec::new(),
        }
    } else {
        let mut out: Vec<StoreData> = Vec::new();
        let mut source = snapshot;
        let ghost all = source@;
        while source.len() > 0
            invariant
                out@.len() + source@.len() == all.len(),
                source@ == all.skip(out@.len() as int),
                forall|j: int| 0 <= j < out@.len() ==> (#[trigger] out@[j])@ == recorded(all[j]),
            decreases source@.len(),
        {
            let ghost done = out@;
            let entry = source.remove(0);
            proof {
                assert(entry == all[done.len() as int]);
                assert(all.skip(done.len() + 1int) =~= all.skip(done.len() as int).remove(0));
            }
            let (offset, position, items) = entry;
            let store = StoreData { offset: offset as u32, position: position as u16, items };
            out.push(store);
        }
        proof {
            assert(out@.map_values(|s: StoreData| s@) =~= all.map_values(
                |e: (usize, usize, Vec<Item>)| recorded(e),
            ));
        }
        out
    };
    let data = SlotData { slot: key, box_items: kept_box, stores };
    proof {
        assert(data@.stores =~= saved_record(before, key, snapshot@, box_view).stores);
        assert(data@.box_items =~= saved_record(before, key, snapshot@, box_view).box_items);
    }
    let ghost witness = data;
    file.put(data);
    proof {
        assert(with_record(before, witness) == file.slots@);
    }
    true
}

/// The restore a recorded store becomes: where it goes, what it holds, and
/// the six the game should restore if the record belongs to the save loaded.
pub open spec fn restore_of(s: StoreView, r: Restore) -> bool {
    &&& r.offset == s.offset as usize
    &&& r.position == s.position as usize
    &&& r.items@ == s.items
    &&& r.expected_visible@.len() == BAG_SIZE
    &&& forall|k: int|
        0 <= k < BAG_SIZE ==> #[trigger] r.expected_visible@[k] == if s.position + k < s.items.len() {
            s.items[s.position + k]
        } else {
            Item::spec_empty()
        }
}

/// Takes the record for `slot` out of the file for a load: its stores as
/// restores to stage, and the box's contents. Nothing for a slot the game
/// does not have, or one with nothing recorded beside it.
pub fn take_for_load(file: &mut SaveFile, slot: u32) -> (r: Option<(Vec<Restore>, Vec<Item>)>)
    ensures
        slot >= SAVE_SLOTS ==> r is None && final(file).slots@ == old(file).slots@,
        slot < SAVE_SLOTS ==> final(file).slots@ == without_record(old(file).slots@, slot as u8),
        slot < SAVE_SLOTS ==> match index_of_slot(old(file).slots@, slot as u8) {
            None => r is None,
            Some(i) => r matches Some((restores, box_items)) && ({
                let record = old(file).slots@[i]@;
                &&& box_items@ == record.box_items
                &&& restores@.len() == record.stores.len()
                &&& forall|k: int|
                    0 <= k < restores@.len() ==> restore_of(record.stores[k], #[trigger] restores@[k])
            }),
        },
{
    if slot >= SAVE_SLOTS {
        return None;
    }
    let data = match file.take(slot as u8) {
        Some(data) => data,
        None => {
            return None;
        },
    };
    let ghost record = data@;
    let SlotData { slot: _, box_items, stores } = data;
    let mut restores: Vec<Restore> = Vec::new();
    let mut k: usize = 0;
    while k < stores.len()
        invariant
            k <= stores@.len(),
            record.stores == stores@.map_values(|s: StoreData| s@),
            restores@.len() == k,
            forall|j: int| 0 <= j < k ==> restore_of(record.stores[j], #[trigger] restores@[j]),
        decreases stores@.len() - k,
    {
        let store = &stores[k];
        let expected_visible = store.visible(BAG_SIZE);
        let restore = Restore {
            offset: store.offset as usize,
            position: store.position as usize,
            items: copy_items(&store.items),
            expected_visible,
        };
        restores.push(restore);
        proof {
            assert(record.stores[k as int] == stores@[k as int]@);
            assert(restore_of(record.stores[k as int], restores@[k as int]));
        }
        k += 1;
    }
    Some((restores, box_items))
}

/// Box contents read from the side file, waiting for a bag to vouch for the
/// file, and when they were staged.
pub struct BoxStaging {
    staged: Option<(Vec<Item>, u64)>,
}

impl BoxStaging {
    pub closed spec fn waiting(&self) -> Option<(Seq<Item>, u64)> {
        match self.staged {
            Some((items, since)) => Some((items@, since)),
            None => None,
        }
    }

    pub fn new() -> (r: BoxStaging)
        ensures
            r.waiting() is None,
    {
        BoxStaging { staged: None }
    }

    /// Holds the box's contents from the file until a bag vouches for it.
    /// An empty box needs no waiting.
    pub fn stage_box(&mut self, items: Vec<Item>, now: u64)
        ensures
            final(self).waiting() == if items@.len() == 0 {
                old(self).waiting()
            } else {
                Some((items@, now))
            },
    {
        if items.len() == 0 {
            return;
        }
        self.staged = Some((items, now));
    }

    pub fn discard_staged_box(&mut self)
        ensures
            final(self).waiting() is None,
    {
        self.staged = None;
    }

    /// Gives the staged contents once a bag restore has `matched`; drops them
    /// once they have waited longer than `BOX_LIFETIME_MS`; otherwise keeps
    /// waiting.
    pub fn settle(&mut self, now: u64, matched: bool) -> (r: Option<Vec<Item>>)
        ensures
            match old(self).waiting() {
                None => r is None && final(self).waiting() is None,
                Some((items, since)) => if (if now >= since {
                    now - since
                } else {
                    0
                }) > BOX_LIFETIME_MS {
                    r is None && final(self).waiting() is None
                } else if !matched {
                    r is None && final(self).waiting() == old(self).waiting()
                } else {
                    r matches Some(v) && v@ == items && final(self).waiting() is None
                },
            },
    {
        let since = match &self.staged {
            None => {
                return None;
            },
            Some((_, since)) => *since,
        };
        let elapsed: u64 = if now >= since {
            now - since
        } else {
            0
        };
        if elapsed > BOX_LIFETIME_MS {
            self.staged = None;
            return None;
        }
        if !matched {
            return None;
        }
        match self.staged.take() {
            Some((items, _)) => Some(items),
            None => None,
        }
    }
}

/// What a load does before the game copies the save in: everything staged
/// and registered belongs to the session being replaced, and so does the
/// box's content. Then, when the file has a record for the slot, its stores
/// are staged for the registry and its box contents for the box.
pub fn on_load(
    registry: &mut Registry,
    item_box: &mut ItemBox,
    staging: &mut BoxStaging,
    file: &mut SaveFile,
    slot: u32,
    now: u64,
)
    requires
        old(registry).wf(),
        old(item_box).wf(),
        forall|i: int, j: int|
            0 <= i < old(file).slots@.len() && 0 <= j < old(file).slots@[i].stores@.len()
                ==> (#[trigger] old(file).slots@[i].stores@[j]).items@.len() <= MAX_SLOTS,
    ensures
        final(registry).wf(),
        final(item_box).wf(),
        final(registry).entries_of().len() == 0,
        final(registry).capacity_of() == old(registry).capacity_of(),
        final(item_box).showing() == old(item_box).showing(),
        old(item_box).stored() is Some ==> (final(item_box).stored() matches Some(t) && t.window.items()
            =~= crate::slots::blank(t.window.cap() as nat)),
        old(item_box).stored() is None ==> final(item_box).stored() is None,
        slot < SAVE_SLOTS ==> final(file).slots@ == without_record(old(file).slots@, slot as u8),
        slot >= SAVE_SLOTS ==> final(file).slots@ == old(file).slots@,
        match (if slot < SAVE_SLOTS { index_of_slot(old(file).slots@, slot as u8) } else { None }) {
            None => final(registry).pending_of().len() == 0 && final(staging).waiting() is None,
            Some(i) => {
                let record = old(file).slots@[i]@;
                &&& final(registry).pending_of().len() == record.stores.len()
                &&& forall|k: int|
                    0 <= k < record.stores.len() ==> restore_of(record.stores[k], (#[trigger] final(registry).pending_of()[k]).restore)
                        && final(registry).pending_of()[k].since == now && !final(registry).pending_of()[k].applied
                &&& final(staging).waiting() == if record.box_items.len() == 0 {
                    None
                } else {
                    Some((record.box_items, now))
                }
            },
        },
{
    registry.discard_staged();
    staging.discard_staged_box();
    registry.forget_all();
    item_box.set_contents(Vec::new());
    proof {
        if let Some(t) = item_box.stored() {
            assert(t.window.items() =~= crate::slots::blank(t.window.cap() as nat));
        }
    }
    let ghost before_file = file.slots@;
    match take_for_load(file, slot) {
        None => {},
        Some((restores, box_items)) => {
            proof {
                let i = index_of_slot(before_file, slot as u8)->0;
                crate::save_file::lemma_index_of_slot_bounds(before_file, slot as u8);
                assert forall|k: int| 0 <= k < restores@.len() implies (#[trigger] restores@[k]).items@.len()
                    <= MAX_SLOTS by {
                    assert(restores@[k].items@ == before_file[i]@.stores[k].items);
                    assert(before_file[i]@.stores[k] == before_file[i].stores@[k]@);
                }
            }
            registry.stage(restores, now);
            staging.stage_box(box_items, now);
        },
    }
}

/// What a new game does: the box and the extra slots start empty.
pub fn on_new_game(registry: &mut Registry, item_box: &mut ItemBox, staging: &mut BoxStaging)
    requires
        old(registry).wf(),
        old(item_box).wf(),
    ensures
        final(registry).wf(),
        final(item_box).wf(),
        final(registry).entries_of().len() == 0,
        final(registry).pending_of().len() == 0,
        !final(registry).matched_of(),
        final(registry).capacity_of() == old(registry).capacity_of(),
        final(staging).waiting() is None,
        final(item_box).showing() == old(item_box).showing(),
        old(item_box).stored() is Some ==> (final(item_box).stored() matches Some(t) && t.window.items()
            =~= crate::slots::blank(t.window.cap() as nat)),
        old(item_box).stored() is None ==> final(item_box).stored() is None,
{
    registry.discard_staged();
    staging.discard_staged_box();
    registry.forget_all();
    item_box.set_contents(Vec::new());
    proof {
        if let Some(t) = item_box.stored() {
            assert(t.window.items() =~= crate::slots::blank(t.window.cap() as nat));
        }
    }
}

/// A load takes back what the save to the same slot recorded: after a save
/// has put its record, the record found for that slot is the one the save
/// composed, stores, box and all; the records of other slots are untouched.
pub proof fn law_load_finds_what_save_recorded(
    before: Seq<SlotData>,
    slot: u8,
    snapshot: Seq<(usize, usize, Vec<Item>)>,
    box_items: Option<Seq<Item>>,
    data: SlotData,
    other: u8,
)
    requires
        data@ == saved_record(before, slot, snapshot, box_items),
        other != slot,
    ensures
        ({
            let after = with_record(before, data);
            &&& index_of_slot(after, slot) matches Some(i) && after[i]@ == saved_record(
                before,
                slot,
                snapshot,
                box_items,
            )
            &&& match index_of_slot(before, other) {
                Some(k) => index_of_slot(after, other) == Some(k) && after[k] == before[k],
                None => index_of_slot(after, other) is None,
            }
        }),
{
    assert(data.slot == slot);
    law_put_then_get(before, data, other);
}

} // verus!
