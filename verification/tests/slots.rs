use re0inv::inventory::{Item, BAG_SIZE, SLOT_TWO_FILLER};
use re0inv::slots::Slots;

/// Two-slot item id, from the game's table.
const SHOTGUN: i32 = 6;
const HANDGUN_ROUNDS: i32 = 20;
const HERB: i32 = 30;

fn single(id: i32) -> Item {
    Item { id, count: 1 }
}

fn slots_from(ids: &[i32]) -> Slots {
    let capacity = ids.len().max(BAG_SIZE).next_multiple_of(2);
    let mut slots = Slots::new(capacity);
    for (i, &id) in ids.iter().enumerate() {
        let item = if id == 0 { Item::empty() } else { single(id) };
        slots.set(i, item);
    }
    slots
}

fn ids(slots: &Slots) -> Vec<i32> {
    slots.as_slice().iter().map(|item| item.id).collect()
}

#[test]
fn capacity_is_forced_even_and_at_least_the_game_size() {
    assert_eq!(Slots::new(0).capacity(), BAG_SIZE);
    assert_eq!(Slots::new(7).capacity(), 8);
    assert_eq!(Slots::new(8).capacity(), 8);
}

#[test]
fn a_paired_two_slot_item_is_not_broken() {
    let slots = slots_from(&[SHOTGUN, SLOT_TWO_FILLER, HERB, 0, 0, 0]);
    assert!(!slots.is_broken());
    assert!(slots.is_valid());
}

#[test]
fn a_two_slot_item_without_its_filler_is_broken() {
    let slots = slots_from(&[SHOTGUN, HERB, 0, 0, 0, 0]);
    assert!(slots.is_broken());
}

#[test]
fn a_two_slot_item_in_the_last_slot_is_broken() {
    let slots = slots_from(&[HERB, HERB, HERB, HERB, HERB, SHOTGUN]);
    assert!(slots.is_broken());
}

#[test]
fn an_orphan_filler_is_broken() {
    let slots = slots_from(&[HERB, SLOT_TWO_FILLER, 0, 0, 0, 0]);
    assert!(slots.is_broken());
}

#[test]
fn a_leading_filler_is_broken() {
    let slots = slots_from(&[SLOT_TWO_FILLER, HERB, 0, 0, 0, 0]);
    assert!(slots.is_broken());
}

#[test]
fn a_two_slot_item_on_an_odd_index_is_paired_but_misaligned() {
    let slots = slots_from(&[HERB, SHOTGUN, SLOT_TWO_FILLER, 0, 0, 0]);
    assert!(!slots.is_broken());
    assert!(!slots.is_aligned());
    assert!(!slots.is_valid());
}

#[test]
fn repair_realigns_by_pulling_a_single_forward() {
    let mut slots = slots_from(&[HERB, SHOTGUN, SLOT_TWO_FILLER, HANDGUN_ROUNDS, 0, 0]);
    let overflow = slots.repair();

    assert!(overflow.is_empty());
    assert!(slots.is_valid());
    assert_eq!(ids(&slots), vec![HERB, HANDGUN_ROUNDS, SHOTGUN, SLOT_TWO_FILLER, 0, 0]);
}

#[test]
fn repair_leaves_a_hole_when_no_single_can_absorb_the_parity() {
    let mut slots = slots_from(&[HERB, SHOTGUN, SLOT_TWO_FILLER, SHOTGUN, SLOT_TWO_FILLER, 0]);
    let overflow = slots.repair();

    assert!(overflow.is_empty());
    assert!(slots.is_aligned());
    assert!(!slots.is_broken());
    assert_eq!(ids(&slots), vec![HERB, 0, SHOTGUN, SLOT_TWO_FILLER, SHOTGUN, SLOT_TWO_FILLER]);
}

#[test]
fn repair_drops_an_orphan_filler_and_keeps_the_item() {
    let mut slots = slots_from(&[HERB, SLOT_TWO_FILLER, HANDGUN_ROUNDS, 0, 0, 0]);
    slots.repair();

    assert!(slots.is_valid());
    assert_eq!(ids(&slots), vec![HERB, HANDGUN_ROUNDS, 0, 0, 0, 0]);
}

#[test]
fn repair_restores_a_missing_filler() {
    let mut slots = slots_from(&[SHOTGUN, HANDGUN_ROUNDS, 0, 0, 0, 0]);
    slots.repair();

    assert!(slots.is_valid());
    assert_eq!(ids(&slots), vec![SHOTGUN, SLOT_TWO_FILLER, HANDGUN_ROUNDS, 0, 0, 0]);
}

#[test]
fn repair_packs_gaps_towards_the_front() {
    let mut slots = slots_from(&[0, HERB, 0, HANDGUN_ROUNDS, 0, 0]);
    slots.repair();

    assert!(slots.is_valid());
    assert_eq!(ids(&slots), vec![HERB, HANDGUN_ROUNDS, 0, 0, 0, 0]);
}

#[test]
fn repair_hands_back_what_does_not_fit() {
    let mut slots = Slots::new(BAG_SIZE);
    for i in 0..BAG_SIZE {
        slots.set(i, single(HERB));
    }
    let mut entries: Vec<Item> = slots.as_slice().to_vec();
    entries.push(single(SHOTGUN));

    let mut crowded = Slots::new(BAG_SIZE);
    for (i, item) in entries.iter().take(BAG_SIZE).enumerate() {
        crowded.set(i, *item);
    }
    crowded.set(BAG_SIZE - 1, single(SHOTGUN));

    let overflow = crowded.repair();

    assert!(crowded.is_valid());
    assert_eq!(overflow, vec![single(SHOTGUN)]);
}

#[test]
fn repair_is_idempotent() {
    let mut slots = slots_from(&[HERB, SHOTGUN, SLOT_TWO_FILLER, 0, HANDGUN_ROUNDS, 0]);
    slots.repair();
    let once = slots.clone();
    slots.repair();

    assert_eq!(slots, once);
}

#[test]
fn repair_never_loses_an_item_that_fits() {
    let mut slots = slots_from(&[0, SHOTGUN, SLOT_TWO_FILLER, HERB, 0, HANDGUN_ROUNDS]);
    let before: Vec<i32> = ids(&slots)
        .into_iter()
        .filter(|&id| id != 0 && id != SLOT_TWO_FILLER)
        .collect();

    let overflow = slots.repair();
    assert!(overflow.is_empty());

    let mut after: Vec<i32> = ids(&slots)
        .into_iter()
        .filter(|&id| id != 0 && id != SLOT_TWO_FILLER)
        .collect();

    let mut before_sorted = before;
    before_sorted.sort_unstable();
    after.sort_unstable();
    assert_eq!(before_sorted, after);
}

#[test]
fn find_ignores_the_filler() {
    let slots = slots_from(&[SHOTGUN, SLOT_TWO_FILLER, HERB, 0, 0, 0]);

    assert_eq!(slots.find(SHOTGUN), Some(0));
    assert_eq!(slots.find(HERB), Some(2));
    assert_eq!(slots.find(SLOT_TWO_FILLER), None);
}

#[test]
fn empty_slot_queries_span_the_whole_store() {
    let mut slots = Slots::new(12);
    slots.set(0, single(HERB));

    assert_eq!(slots.capacity(), 12);
    assert_eq!(slots.count_empty(), 11);
    assert_eq!(slots.first_empty(), Some(1));
}

#[test]
fn a_view_past_the_end_is_padded_with_empties() {
    let mut slots = Slots::new(BAG_SIZE);
    slots.set(5, single(HERB));

    let view = slots.view(4, BAG_SIZE);
    assert_eq!(view.len(), BAG_SIZE);
    assert_eq!(view[0], Item::empty());
    assert_eq!(view[1], single(HERB));
    assert!(view[2..].iter().all(|item| item.is_empty()));
}
