use re0inv::inventory::{Bag, Item, BAG_BYTES, BAG_SIZE};
use re0inv::item_box::ItemBox;
use re0inv::persistence::{occupied, on_load, on_new_game, record_save, take_for_load, BoxStaging};
use re0inv::registry::Registry;
use re0inv::save_file::SaveFile;
use re0inv::slots::Slots;

fn item(id: i32, count: i32) -> Item {
    Item { id, count }
}

fn bag_of(ids: [i32; BAG_SIZE]) -> Bag {
    let mut items = [Item { id: 0, count: 0 }; BAG_SIZE];
    for (slot, id) in ids.iter().enumerate() {
        if *id != 0 {
            items[slot] = Item { id: *id, count: 1 };
        }
    }
    Bag { unknown00: 0, items, personal_item: Item { id: 0, count: 0 }, equipped_index: -1 }
}

fn ids(items: &[Item]) -> Vec<i32> {
    items.iter().map(|i| i.id).collect()
}

#[test]
fn occupied_counts_what_is_not_empty() {
    assert_eq!(occupied(&[item(1, 1), item(0, 0), item(3, 2), item(0, 0)]), 2);
    assert_eq!(occupied(&[]), 0);
}

#[test]
fn a_save_records_the_stores_and_the_box_and_a_load_takes_them_back() {
    let mut file = SaveFile { slots: vec![] };
    let snapshot = vec![(0x20usize, 2usize, vec![item(1, 1), item(2, 1), item(3, 1), item(4, 1)])];
    assert!(record_save(&mut file, 4, snapshot, Some(vec![item(42, 3)])));
    assert!(!record_save(&mut file, 20, vec![], None));
    assert_eq!(file.slots.len(), 1);

    let (restores, box_items) = take_for_load(&mut file, 4).unwrap();
    assert_eq!(file.slots.len(), 0);
    assert_eq!(box_items, vec![item(42, 3)]);
    assert_eq!(restores.len(), 1);
    assert_eq!(restores[0].offset, 0x20);
    assert_eq!(restores[0].position, 2);
    assert_eq!(ids(&restores[0].expected_visible), vec![3, 4, 0, 0, 0, 0]);
    assert!(take_for_load(&mut file, 4).is_none());
}

#[test]
fn a_save_without_stores_keeps_what_the_record_had() {
    let mut file = SaveFile { slots: vec![] };
    record_save(&mut file, 1, vec![(0x60, 0, vec![item(9, 9)])], Some(vec![item(7, 1)]));
    record_save(&mut file, 1, vec![], None);
    let (restores, box_items) = take_for_load(&mut file, 1).unwrap();
    assert_eq!(restores.len(), 1);
    assert_eq!(ids(&restores[0].items), vec![9]);
    assert_eq!(box_items, vec![item(7, 1)]);
}

#[test]
fn loading_stages_the_record_and_the_game_bag_vouches_for_it() {
    let mut file = SaveFile { slots: vec![] };
    let stored = vec![
        item(1, 1), item(2, 1), item(3, 1), item(4, 1), item(5, 1), item(180, 0),
        item(7, 1), item(8, 1),
    ];
    record_save(&mut file, 2, vec![(0x20, 2, stored.clone())], Some(vec![item(50, 1)]));

    let mut registry = Registry::new();
    registry.set_capacity(8);
    let mut item_box = ItemBox::new();
    item_box.enable(12, 0x5000);
    let mut staging = BoxStaging::new();
    on_load(&mut registry, &mut item_box, &mut staging, &mut file, 2, 1000);
    assert!(file.slots.is_empty());
    assert!(!registry.restore_matched());
    assert_eq!(item_box.contents().iter().filter(|i| i.id != 0).count(), 0);

    // The game copies the save in: the bag holds the six the window showed.
    let mut own = bag_of([0; BAG_SIZE]);
    own.items.copy_from_slice(&stored[2..8]);
    let (_, shown) = registry.view_for(0x1000, 0x20, own, own, 0x9000, 1100, false);
    assert!(registry.restore_matched());
    assert_eq!(ids(&registry.contents(0)), ids(&stored));
    assert_eq!(ids(&shown.items), vec![3, 4, 5, 180, 7, 8]);
    assert_eq!(staging.settle(1200, registry.restore_matched()), Some(vec![item(50, 1)]));
}

#[test]
fn a_new_game_starts_everything_empty() {
    let mut registry = Registry::new();
    registry.set_capacity(8);
    let own = bag_of([1, 2, 0, 0, 0, 0]);
    registry.view_for(0x1000, 0x20, own, own, 0x9000, 0, false);
    let mut item_box = ItemBox::new();
    item_box.enable(12, 0x5000);
    let mut staging = BoxStaging::new();
    staging.stage_box(vec![item(1, 1)], 0);
    on_new_game(&mut registry, &mut item_box, &mut staging);
    assert!(registry.positions().is_empty());
    assert_eq!(staging.settle(10, true), None);
    assert!(item_box.contents().iter().all(|i| i.id == 0));
}

#[test]
fn every_store_scrolls_together_and_comes_back() {
    let mut registry = Registry::new();
    registry.set_capacity(10);
    let a = bag_of([1, 2, 3, 4, 5, 6]);
    let b = bag_of([11, 12, 0, 0, 0, 0]);
    let (_, va) = registry.view_for(0x1000, 0x20, a, a, 0x9000, 0, false);
    let (_, vb) = registry.view_for(0x1000, 0x60, b, b, 0x9100, 0, false);
    let mut views = vec![va, vb];
    assert_eq!(registry.scroll_all(1, &mut views), 2);
    assert_eq!(ids(&views[0].items), vec![3, 4, 5, 6, 0, 0]);
    assert_eq!(registry.item_in_view(0x20, 0), Some(item(3, 1)));
    assert_eq!(registry.item_in_view(0x40, 0), None);
    assert_eq!(registry.scroll_all(5, &mut views), 2);
    assert_eq!(registry.positions()[0].1, 4);
    assert_eq!(registry.scroll_all(1, &mut views), 0);
    assert_eq!(registry.rewind_all(&mut views), 2);
    assert_eq!(ids(&views[0].items), vec![1, 2, 3, 4, 5, 6]);
}

#[test]
fn out_in_the_world_the_window_comes_back_onto_the_equipped_item() {
    let mut registry = Registry::new();
    registry.set_capacity(12);
    let mut own = bag_of([1, 2, 3, 4, 5, 6]);
    own.equipped_index = 0;
    let (_, shown) = registry.view_for(0x1000, 0x20, own, own, 0x9000, 0, false);
    let mut views = vec![shown];
    registry.scroll_all(2, &mut views);
    assert_eq!(views[0].equipped_index, -1);
    registry.keep_equipped_visible_all(&mut views);
    assert_eq!(registry.positions()[0].1, 0);
    assert_eq!(views[0].equipped_index, 0);
}

#[test]
fn a_bag_reads_back_from_its_sixty_four_bytes() {
    let mut raw = [0u8; BAG_BYTES];
    raw[0..4].copy_from_slice(&7i32.to_le_bytes());
    raw[4..8].copy_from_slice(&5i32.to_le_bytes());
    raw[8..12].copy_from_slice(&1i32.to_le_bytes());
    raw[12..16].copy_from_slice(&180i32.to_le_bytes());
    raw[0x34..0x38].copy_from_slice(&33i32.to_le_bytes());
    raw[0x38..0x3C].copy_from_slice(&1i32.to_le_bytes());
    raw[0x3C..0x40].copy_from_slice(&0i32.to_le_bytes());
    let bag = Bag::from_bytes(&raw);
    assert_eq!(bag.unknown00, 7);
    assert_eq!(bag.items[0], item(5, 1));
    assert_eq!(bag.items[1], item(180, 0));
    assert_eq!(bag.personal_item, item(33, 1));
    assert_eq!(bag.equipped_index, 0);
    assert!(bag.looks_plausible());
}

#[test]
fn a_bag_with_a_stray_filler_or_a_wild_count_is_not_plausible() {
    let mut bag = bag_of([1, 2, 3, 4, 5, 6]);
    assert!(!bag.looks_plausible());
    bag.items[4] = item(0, 0);
    bag.items[5] = item(0, 0);
    assert!(bag.looks_plausible());
    bag.items[0] = item(180, 0);
    assert!(!bag.looks_plausible());
    bag.items[0] = item(1, 5000);
    assert!(!bag.looks_plausible());
    bag.items[0] = item(1, 1);
    bag.equipped_index = 6;
    assert!(!bag.looks_plausible());
}

#[test]
fn counts_add_up_across_the_store() {
    let s = Slots::from_items(vec![item(20, 15), item(3, 1), item(20, 7), item(0, 0)]);
    assert_eq!(s.capacity(), 4);
    assert_eq!(s.total_count(20), 22);
    assert_eq!(s.total_count(99), 0);
}

#[test]
fn pressing_on_past_the_end_wraps_every_store_to_the_first_row() {
    let mut registry = Registry::new();
    registry.set_capacity(10);
    let a = bag_of([1, 2, 3, 4, 0, 0]);
    let (_, va) = registry.view_for(0x1000, 0x20, a, a, 0x9000, 0, false);
    let mut views = vec![va];
    assert_eq!(registry.advance_all(&mut views), (1, false));
    assert_eq!(registry.advance_all(&mut views), (1, false));
    assert_eq!(registry.positions()[0].1, 4);
    assert_eq!(registry.advance_all(&mut views), (1, true));
    assert_eq!(registry.positions()[0].1, 0);
    assert_eq!(ids(&views[0].items), vec![1, 2, 3, 4, 0, 0]);
}

#[test]
fn the_box_wraps_the_same_way() {
    let mut item_box = ItemBox::new();
    let (nothing, wrapped) = item_box.advance(bag_of([0; BAG_SIZE]));
    assert!(nothing.is_none() && wrapped);
    item_box.enable(8, 0x5000);
    let (_, shown) = item_box.view(bag_of([9, 0, 0, 0, 0, 0])).unwrap();
    let (moved, wrapped) = item_box.advance(shown);
    assert!(!wrapped);
    let shown = moved.unwrap();
    assert_eq!(item_box.state(), Some((2, 8, 7)));
    let (back, wrapped) = item_box.advance(shown);
    assert!(wrapped);
    assert_eq!(ids(&back.unwrap().items), vec![9, 0, 0, 0, 0, 0]);
    assert_eq!(item_box.state(), Some((0, 8, 7)));
}
