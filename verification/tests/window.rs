use re0inv::inventory::{Bag, Item, BAG_SIZE};
use re0inv::window::Window;

const SHOTGUN: i32 = 6;
const HERB: i32 = 30;

fn item(id: i32) -> Item {
    Item { id, count: 1 }
}

fn empty_bag() -> Bag {
    Bag {
        unknown00: 0,
        items: [Item::empty(); BAG_SIZE],
        personal_item: Item::empty(),
        equipped_index: -1,
    }
}

fn filled_window(capacity: usize) -> Window {
    let mut window = Window::new(capacity);
    for i in 0..capacity {
        window.store_mut().set(i, item(HERB + i as i32));
    }
    window
}

#[test]
fn a_store_the_size_of_the_bag_cannot_scroll() {
    let mut window = Window::new(BAG_SIZE);

    assert!(!window.is_scrollable());
    assert_eq!(window.max_position(), 0);
    assert!(!window.scroll_rows(1));
}

#[test]
fn scrolling_moves_by_rows_of_two() {
    let mut window = filled_window(12);

    assert!(window.scroll_rows(1));
    assert_eq!(window.position(), 2);

    assert!(window.scroll_rows(2));
    assert_eq!(window.position(), 6);

    assert!(window.scroll_rows(-1));
    assert_eq!(window.position(), 4);
}

#[test]
fn scrolling_clamps_at_both_ends_and_reports_no_movement() {
    let mut window = filled_window(10);

    assert!(!window.scroll_rows(-1));
    assert_eq!(window.position(), 0);

    assert!(window.scroll_rows(99));
    assert_eq!(window.position(), window.max_position());
    assert_eq!(window.position(), 4);

    assert!(!window.scroll_rows(1));
}

#[test]
fn the_position_stays_even_however_it_is_reached() {
    let mut window = filled_window(16);

    for rows in [3, -1, 7, -2, 100, -100] {
        window.scroll_rows(rows);
        assert!(
            window.position().is_multiple_of(2),
            "position {} is odd after scrolling {rows}",
            window.position()
        );
    }
}

#[test]
fn revealing_an_index_already_in_view_does_not_move() {
    let mut window = filled_window(12);
    window.scroll_rows(2);
    let before = window.position();

    window.reveal_index(before + 3);
    assert_eq!(window.position(), before);
}

#[test]
fn revealing_scrolls_the_shortest_way_and_stays_even() {
    let mut window = filled_window(16);

    window.reveal_index(11);
    assert!(window.position().is_multiple_of(2));
    assert!(window.visible_slot(11).is_some());

    window.reveal_index(1);
    assert_eq!(window.position(), 0);
    assert!(window.visible_slot(1).is_some());
}

#[test]
fn the_bag_shows_the_slots_under_the_window() {
    let mut window = filled_window(12);
    let mut bag = empty_bag();

    window.scroll_rows(2);
    window.write_into(&mut bag);

    for slot in 0..BAG_SIZE {
        let expected = window.store().get(window.position() + slot).unwrap();
        assert_eq!(bag.items[slot], expected);
    }
}

#[test]
fn writing_the_bag_back_only_touches_the_visible_slots() {
    let mut window = filled_window(12);
    window.scroll_rows(1);

    let outside_before = window.store().get(0).unwrap();

    let mut bag = empty_bag();
    window.write_into(&mut bag);
    bag.items[0] = item(SHOTGUN);
    window.read_from(&bag);

    assert_eq!(window.store().get(2).unwrap(), item(SHOTGUN));
    assert_eq!(window.store().get(0).unwrap(), outside_before);
}

#[test]
fn the_personal_item_is_left_alone() {
    let window = filled_window(12);
    let mut bag = empty_bag();
    bag.personal_item = item(SHOTGUN);

    window.write_into(&mut bag);

    assert_eq!(bag.personal_item, item(SHOTGUN));
}

#[test]
fn the_equipped_item_follows_the_window() {
    let mut window = filled_window(12);
    let mut bag = empty_bag();

    bag.equipped_index = 2;
    window.read_from(&bag);
    assert_eq!(window.equipped(), Some(2));

    window.scroll_rows(1);
    window.write_into(&mut bag);
    assert_eq!(bag.equipped_index, 0);

    window.scroll_rows(1);
    window.write_into(&mut bag);
    assert_eq!(bag.equipped_index, -1);
    assert_eq!(window.equipped(), Some(2));

    window.scroll_rows(-2);
    window.write_into(&mut bag);
    assert_eq!(bag.equipped_index, 2);
}

#[test]
fn an_out_of_view_equipped_item_survives_a_read_back() {
    let mut window = filled_window(12);
    let mut bag = empty_bag();

    bag.equipped_index = 0;
    window.read_from(&bag);
    window.scroll_rows(2);
    window.write_into(&mut bag);

    window.read_from(&bag);
    assert_eq!(window.equipped(), Some(0));
}

#[test]
fn the_game_unequipping_in_view_is_believed() {
    let mut window = filled_window(12);
    let mut bag = empty_bag();

    bag.equipped_index = 1;
    window.read_from(&bag);
    assert_eq!(window.equipped(), Some(1));

    bag.equipped_index = -1;
    window.read_from(&bag);
    assert_eq!(window.equipped(), None);
}

#[test]
fn repair_pulls_the_window_back_into_range() {
    let mut window = Window::new(12);
    window.store_mut().set(10, item(HERB));
    window.scroll_rows(3);
    assert_eq!(window.position(), 6);

    window.repair();

    assert!(window.position() <= window.max_position());
    assert!(window.store().is_valid());
}

#[test]
fn a_free_slot_in_view_is_reported_by_its_visible_position() {
    let mut window = Window::new(12);
    window.store_mut().set(0, item(HERB));
    window.store_mut().set(1, item(HERB));

    assert_eq!(window.first_visible_empty(), Some(2));
}

#[test]
fn a_full_window_reports_nothing_visible_even_with_room_behind_it() {
    let mut window = Window::new(12);
    for i in 0..BAG_SIZE {
        window.store_mut().set(i, item(HERB));
    }

    assert_eq!(window.first_visible_empty(), None);
    assert_eq!(window.store().first_empty(), Some(BAG_SIZE));
}

#[test]
fn revealing_a_slot_behind_the_window_yields_a_writable_index() {
    let mut window = Window::new(12);
    for i in 0..BAG_SIZE {
        window.store_mut().set(i, item(HERB));
    }

    let index = window.store().first_empty().unwrap();
    window.reveal_index(index);

    let slot = window.visible_slot(index).expect("revealed but not visible");
    assert!(slot < BAG_SIZE, "slot {slot} is outside the bag");
    assert_eq!(window.store_index(slot), Some(index));
}

#[test]
fn every_store_index_becomes_writable_once_revealed() {
    let capacity = 16;
    let mut window = Window::new(capacity);

    for index in 0..capacity {
        window.reveal_index(index);
        let slot = window
            .visible_slot(index)
            .unwrap_or_else(|| panic!("index {index} not visible after reveal"));
        assert!(slot < BAG_SIZE, "index {index} mapped to slot {slot}");
    }
}

#[test]
fn slot_and_index_translate_both_ways() {
    let mut window = filled_window(12);
    window.scroll_rows(2);

    assert_eq!(window.store_index(0), Some(4));
    assert_eq!(window.store_index(5), Some(9));
    assert_eq!(window.store_index(BAG_SIZE), None);

    assert_eq!(window.visible_slot(4), Some(0));
    assert_eq!(window.visible_slot(9), Some(5));
    assert_eq!(window.visible_slot(3), None);
    assert_eq!(window.visible_slot(10), None);
}

fn nine_of_twelve() -> Window {
    let mut window = Window::new(12);
    for i in 0..9 {
        window.store_mut().set(i, item(HERB));
    }
    window.set_position(4);
    window
}

#[test]
fn the_roomiest_position_is_where_the_empties_are() {
    let window = nine_of_twelve();

    assert_eq!(window.visible_empty_count(), 1);
    assert_eq!(window.roomiest_position(), (6, 3));
}

#[test]
fn the_current_position_keeps_a_tie() {
    let mut window = Window::new(12);
    window.set_position(4);
    assert_eq!(window.roomiest_position(), (4, BAG_SIZE));

    let full = filled_window(12);
    assert_eq!(full.roomiest_position(), (0, 0));
}

#[test]
fn compacting_closes_holes_and_keeps_the_equipped_item() {
    let mut window = Window::new(12);
    for i in [0, 1, 2, 3, 4, 6, 7, 8, 9, 10] {
        window.store_mut().set(i, item(HERB + i as i32));
    }
    window.set_position(6);

    let mut bag = empty_bag();
    window.write_into(&mut bag);
    bag.equipped_index = 2;
    window.read_from(&bag);
    assert_eq!(window.equipped(), Some(8));

    window.compact();

    assert_eq!(window.store().count_empty(), 2);
    assert!(window.store().get(10).unwrap().is_empty());
    assert!(window.store().get(11).unwrap().is_empty());
    assert_eq!(window.equipped(), Some(7));
    assert_eq!(window.store().get(7).unwrap(), item(HERB + 8));
}

fn numbered(capacity: usize) -> Window {
    let mut window = Window::new(capacity);
    for i in 0..capacity {
        window.store_mut().set(i, item(i as i32));
    }
    window
}

fn shown(window: &Window) -> Vec<i32> {
    let mut bag = empty_bag();
    window.write_into(&mut bag);
    bag.items.iter().map(|item| item.id).collect()
}

#[test]
fn pinning_keeps_the_row_while_the_rest_scrolls() {
    let mut window = numbered(12);
    window.pin_row(1);

    assert_eq!(shown(&window), vec![0, 1, 2, 3, 4, 5]);

    assert!(window.scroll_rows(1));
    assert_eq!(shown(&window), vec![4, 5, 2, 3, 6, 7]);

    assert!(window.scroll_rows(99));
    assert_eq!(shown(&window), vec![8, 9, 2, 3, 10, 11]);
    assert_eq!(window.position(), window.max_position());

    for slot in 0..BAG_SIZE {
        let index = window.store_index(slot).unwrap();
        assert_eq!(window.visible_slot(index), Some(slot));
    }
    assert_eq!(window.visible_slot(2), Some(2));
    assert_eq!(window.visible_slot(0), None);
}

#[test]
fn a_pinned_window_reads_back_into_the_right_slots() {
    let mut window = numbered(12);
    window.pin_row(0);
    window.scroll_rows(2);
    assert_eq!(shown(&window), vec![0, 1, 6, 7, 8, 9]);

    let mut bag = empty_bag();
    window.write_into(&mut bag);
    bag.items[1] = item(SHOTGUN);
    bag.items[5] = item(HERB);
    window.read_from(&bag);

    assert_eq!(window.store().get(1).unwrap(), item(SHOTGUN));
    assert_eq!(window.store().get(9).unwrap(), item(HERB));
    assert_eq!(window.store().get(3).unwrap(), item(3));
}

#[test]
fn unpinning_keeps_the_kept_slot_where_it_is() {
    let mut window = numbered(12);
    window.pin_row(1);
    window.scroll_rows(99);
    assert_eq!(shown(&window), vec![8, 9, 2, 3, 10, 11]);

    window.unpin(Some(4));
    assert!(!window.is_pinned());
    assert_eq!(window.position(), 6);
    assert_eq!(shown(&window), vec![6, 7, 8, 9, 10, 11]);

    let mut again = numbered(12);
    again.pin_row(2);
    again.scroll_rows(99);
    again.unpin(Some(4));
    assert!(again.visible_slot(4).is_some());
}

#[test]
fn pinning_covers_every_row_of_a_six_slot_store() {
    let mut window = numbered(6);
    window.pin_row(2);
    assert_eq!(shown(&window), vec![0, 1, 2, 3, 4, 5]);
    assert!(!window.scroll_rows(1));
}

#[test]
fn pinned_empties_and_reveal_use_the_same_mapping() {
    let mut window = numbered(12);
    window.store_mut().set(0, item(HERB));
    window.store_mut().set(11, Item::empty());
    window.pin_row(0);

    assert_eq!(window.first_visible_empty(), None);
    window.reveal_index(11);
    assert_eq!(window.visible_slot(11), Some(5));
    assert_eq!(window.first_visible_empty(), Some(5));
}

#[test]
fn scrolling_by_the_largest_row_counts_stops_at_the_ends() {
    let mut window = filled_window(20);
    assert!(window.scroll_rows(i32::MAX));
    assert_eq!(window.position(), window.max_position());
    assert_eq!(window.position() % 2, 0);
    assert!(window.scroll_rows(i32::MIN));
    assert_eq!(window.position(), 0);
    assert!(!window.scroll_rows(i32::MIN));
}
