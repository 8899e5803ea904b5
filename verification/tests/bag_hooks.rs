use re0inv::bag_hooks::{
    count_empty, first_empty, promised_room, seek_slot, visible_empty_count, visible_first_empty,
    CallSites, NO_EMPTY_SLOT,
};
use re0inv::inventory::{Bag, Item, BAG_SIZE};
use re0inv::item_box::ItemBox;
use re0inv::registry::Registry;
use re0inv::window::Window;

const HERB: i32 = 30;

fn herb() -> Item {
    Item { id: HERB, count: 1 }
}

fn nine_of_twelve() -> Window {
    let mut window = Window::new(12);
    for i in 0..9 {
        window.store_mut().set(i, herb());
    }
    window.set_position(4);
    window
}

fn full_twelve() -> Window {
    let mut window = Window::new(12);
    for i in 0..12 {
        window.store_mut().set(i, herb());
    }
    window
}

#[test]
fn the_room_promised_fits_in_one_window() {
    let window = nine_of_twelve();

    assert_eq!(window.store().count_empty(), 3);
    assert_eq!(promised_room(&window), 3);
    assert_eq!(promised_room(&full_twelve()), 0);
}

#[test]
fn a_two_slot_item_is_never_placed_against_the_edge() {
    let mut window = nine_of_twelve();

    let slot = seek_slot(&mut window, true);

    assert_eq!(window.position(), 6);
    assert_eq!(slot, 3);
    assert!((slot as usize) + 1 < BAG_SIZE);
}

#[test]
fn a_single_item_takes_the_first_empty_slot_in_view() {
    let mut window = nine_of_twelve();

    assert_eq!(seek_slot(&mut window, false), 5);
    assert_eq!(window.position(), 4);
}

#[test]
fn a_single_item_with_nothing_free_in_view_brings_the_room_into_view() {
    let mut window = Window::new(12);
    for i in 0..BAG_SIZE {
        window.store_mut().set(i, herb());
    }

    let slot = seek_slot(&mut window, false);

    assert!(slot >= 0 && (slot as usize) < BAG_SIZE);
    assert_eq!(window.store_index(slot as usize), Some(BAG_SIZE));
}

#[test]
fn a_full_store_has_no_slot_for_anything() {
    let mut window = full_twelve();

    assert_eq!(seek_slot(&mut window, true), NO_EMPTY_SLOT);
    assert_eq!(seek_slot(&mut window, false), NO_EMPTY_SLOT);
}

fn bag_with(ids: [i32; BAG_SIZE]) -> Bag {
    let mut bag = Bag {
        unknown00: 0,
        items: [Item::empty(); BAG_SIZE],
        personal_item: Item::empty(),
        equipped_index: -1,
    };
    for (slot, id) in ids.iter().enumerate() {
        bag.items[slot] = Item { id: *id, count: if *id == 0 { 0 } else { 1 } };
    }
    bag
}

#[test]
fn without_a_store_the_bag_answers_for_itself() {
    let bag = bag_with([HERB, 0, HERB, 0, 0, HERB]);
    assert_eq!(visible_empty_count(&bag), 3);
    assert_eq!(visible_first_empty(&bag), 1);

    let full = bag_with([HERB; BAG_SIZE]);
    assert_eq!(visible_empty_count(&full), 0);
    assert_eq!(visible_first_empty(&full), NO_EMPTY_SLOT);
}

#[test]
fn two_slot_call_sites_are_told_apart_by_their_return_address() {
    let mut sites = CallSites::new();
    assert!(!sites.is_two_slot_request(0));
    assert!(!sites.is_two_slot_request(0x4DB512));
    sites.set_two_slot_callers([0x4DB512, 0x4DB600]);
    assert!(sites.is_two_slot_request(0x4DB512));
    assert!(sites.is_two_slot_request(0x4DB600));
    assert!(!sites.is_two_slot_request(0x4DB513));
    assert!(!sites.is_two_slot_request(0));
}

#[test]
fn a_store_behind_the_view_answers_with_the_whole_store() {
    let mut registry = Registry::new();
    registry.set_capacity(12);
    let mut item_box = ItemBox::new();
    let own = bag_with([HERB; BAG_SIZE]);
    let (view, published) = registry.view_for(0x1000, 0x20, own, own, 0x9000, 0, false);
    assert_eq!(view, 0x9000);
    assert_eq!(published.items, own.items);

    // Six herbs in view, six empty slots behind: the promise is what one
    // position shows, and the slot named brings the room into view.
    let (count, _) = count_empty(&mut registry, &mut item_box, view, published);
    assert_eq!(count, 6);
    let sites = CallSites::new();
    let (slot, shown) = first_empty(&mut registry, &mut item_box, &sites, view, published, 0);
    assert!((0..BAG_SIZE as i32).contains(&slot));
    let shown = shown.unwrap();
    assert!(shown.items[slot as usize].is_empty());

    // A bag nobody stands behind answers for itself.
    let (count, none) = count_empty(&mut registry, &mut item_box, 0x7777, own);
    assert_eq!(count, 0);
    assert!(none.is_none());
}
