use re0inv::inventory::{Bag, Item, BAG_SIZE};
use re0inv::item_box::ItemBox;
use re0inv::registry::{ProbeStep, Registry};

fn bag_of(ids: [i32; BAG_SIZE]) -> Bag {
    let mut items = [Item { id: 0, count: 0 }; BAG_SIZE];
    for (slot, id) in ids.iter().enumerate() {
        if *id != 0 {
            items[slot] = Item { id: *id, count: 1 };
        }
    }
    Bag { unknown00: 0, items, personal_item: Item { id: 0, count: 0 }, equipped_index: -1 }
}

#[test]
fn a_new_bag_seeds_its_store_with_what_the_game_holds() {
    let mut r = Registry::new();
    r.set_capacity(12);
    let own = bag_of([1, 2, 3, 4, 5, 6]);
    let (view, shown) = r.view_for(0x1000, 0x40, own, own, 0x9000, 0, false);
    assert_eq!(view, 0x9000);
    assert_eq!(shown.items.map(|i| i.id), [1, 2, 3, 4, 5, 6]);
    assert_eq!(r.positions(), vec![(0x1040, 0, 12, 6)]);
    let held = r.contents(0);
    assert_eq!(held.len(), 12);
    assert_eq!(held[..6].iter().map(|i| i.id).collect::<Vec<_>>(), vec![1, 2, 3, 4, 5, 6]);
    assert!(held[6..].iter().all(|i| i.id == 0));
    assert_eq!(r.find(0x1000, 0x40), Some(0));
    assert_eq!(r.view_address(0x1000, 0x40), Some(0x9000));
    assert_eq!(r.find(0x2000, 0x40), None);
}

#[test]
fn the_second_pass_keeps_the_same_view() {
    let mut r = Registry::new();
    r.set_capacity(12);
    let own = bag_of([1, 2, 0, 0, 0, 0]);
    let (view, shown) = r.view_for(0x1000, 0x40, own, own, 0x9000, 0, false);
    let (again, _) = r.view_for(0x1000, 0x40, shown, shown, 0xA000, 1, false);
    assert_eq!(view, again);
    assert_eq!(r.positions().len(), 1);
}

#[test]
fn the_item_box_opens_only_once_set_up() {
    let mut b = ItemBox::new();
    assert!(!b.is_open());
    assert!(!b.is_set_up());
    assert!(!b.toggle());
    assert_eq!(b.state(), None);
    b.enable(24, 0x5000);
    assert!(b.is_set_up());
    assert!(b.toggle());
    assert!(b.is_open());
    assert_eq!(b.state(), Some((0, 24, 24)));
    b.close();
    assert!(!b.is_open());
    assert_eq!(b.contents().len(), 24);
}

#[test]
fn the_item_box_takes_in_what_the_game_left_in_its_view() {
    let mut b = ItemBox::new();
    b.enable(24, 0x5000);
    let (at, _) = b.view(bag_of([0; BAG_SIZE])).unwrap();
    assert_eq!(at, 0x5000);
    let (_, shown) = b.view(bag_of([7, 0, 0, 0, 0, 0])).unwrap();
    assert_eq!(shown.items[0].id, 7);
    assert_eq!(b.contents()[0].id, 7);
    assert_eq!(b.state(), Some((0, 24, 23)));
}

#[test]
fn the_toggle_key_only_opens_the_box() {
    let mut b = ItemBox::new();
    assert!(!b.open_from_key());
    assert!(!b.is_open());
    b.enable(12, 0x5000);
    assert!(b.open_from_key());
    assert!(b.open_from_key());
    assert!(b.is_open());
    b.close_with_menu();
    assert!(!b.is_open());
    assert!(b.open_from_key());
    b.abandon();
    assert!(!b.is_open());
    assert!(b.is_set_up());
}

#[test]
fn a_search_walks_the_window_across_the_store_and_stops_where_found() {
    let mut r = Registry::new();
    r.set_capacity(12);
    let own = bag_of([1, 2, 3, 4, 5, 6]);
    let (view, shown) = r.view_for(0x1000, 0x40, own, own, 0x9000, 0, false);
    assert!(r.probe_positions(0x7777, shown).is_none());
    let (mut probe, first) = r.probe_positions(view, shown).unwrap();
    assert_eq!(first.items.map(|i| i.id), [1, 2, 3, 4, 5, 6]);
    match r.probe_step(&mut probe, -1, first) {
        ProbeStep::Next(out) => {
            assert_eq!(out.items.map(|i| i.id), [3, 4, 5, 6, 0, 0]);
            assert_eq!(r.positions(), vec![(0x1040, 2, 12, 6)]);
            match r.probe_step(&mut probe, 4, out) {
                ProbeStep::Found(slot) => assert_eq!(slot, 4),
                other => panic!("expected the search to stop, got {other:?}"),
            }
        }
        other => panic!("expected the next position, got {other:?}"),
    }
    assert_eq!(r.positions(), vec![(0x1040, 2, 12, 6)]);
}

#[test]
fn a_search_that_finds_nothing_puts_the_window_back() {
    let mut r = Registry::new();
    r.set_capacity(10);
    let own = bag_of([1, 0, 0, 0, 0, 0]);
    let (view, shown) = r.view_for(0x1000, 0x40, own, own, 0x9000, 0, false);
    let (mut probe, mut bag) = r.probe_positions(view, shown).unwrap();
    let mut shown_positions = vec![];
    loop {
        shown_positions.push(r.positions()[0].1);
        match r.probe_step(&mut probe, -1, bag) {
            ProbeStep::Next(out) => bag = out,
            ProbeStep::Done(out) => {
                assert_eq!(out.items[0].id, 1);
                break;
            }
            ProbeStep::Found(_) => panic!("nothing answered yes"),
        }
    }
    assert_eq!(shown_positions, vec![0, 2, 4]);
    assert_eq!(r.positions()[0].1, 0);
}
