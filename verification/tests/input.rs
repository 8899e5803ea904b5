use re0inv::input::{
    active_selection, command_for, edge_scroll, holding_down, on_tail, scroll_target, Command,
    Cursors, EdgeScroll, Hold, Phase, Poller, Target, BUTTON_DPAD_DOWN, BUTTON_LEFT_THUMB,
    BUTTON_RIGHT_THUMB, VK_F9, VK_HOME, VK_PAGE_DOWN, VK_PAGE_UP,
};

#[test]
fn only_some_phases_may_scroll() {
    assert_eq!(scroll_target(Some(Phase::Browsing), false, None, false), Some(Target::Bags));
    assert_eq!(scroll_target(Some(Phase::PartnerHalf), true, Some(8), false), Some(Target::Box));
    assert_eq!(scroll_target(Some(Phase::PartnerHalf), false, Some(8), false), Some(Target::Partner(8)));
    assert_eq!(scroll_target(Some(Phase::PartnerHalf), false, None, false), None);
    assert_eq!(scroll_target(Some(Phase::SecondItem), false, None, false), None);
    assert_eq!(scroll_target(Some(Phase::SecondItem), false, None, true), Some(Target::Bags));
    assert_eq!(scroll_target(Some(Phase::Other), true, Some(8), true), None);
    assert_eq!(scroll_target(None, true, Some(8), true), None);
}

#[test]
fn the_moving_cursor_depends_on_the_half() {
    let c = Cursors { first: Some(4), second: Some(5), partner: Some(1) };
    assert_eq!(active_selection(Some(Target::Bags), Some(Phase::Browsing), c), Some((Target::Bags, 4)));
    assert_eq!(active_selection(Some(Target::Bags), Some(Phase::SecondItem), c), Some((Target::Bags, 5)));
    assert_eq!(active_selection(Some(Target::Box), Some(Phase::PartnerHalf), c), Some((Target::Box, 1)));
    assert_eq!(active_selection(None, Some(Phase::Browsing), c), None);
}

#[test]
fn pressing_down_on_the_bottom_row_scrolls() {
    let c = Cursors { first: Some(4), second: None, partner: Some(2) };
    assert_eq!(edge_scroll(Some(Target::Bags), Some(Phase::Browsing), c), EdgeScroll::Advance(Target::Bags));
    assert_eq!(edge_scroll(Some(Target::Box), Some(Phase::PartnerHalf), c), EdgeScroll::Stay);
    assert_eq!(edge_scroll(None, Some(Phase::Browsing), c), EdgeScroll::Stay);
}

#[test]
fn down_comes_from_keys_the_pad_or_the_stick() {
    assert!(holding_down(true, 0, 0));
    assert!(holding_down(false, BUTTON_DPAD_DOWN, 0));
    assert!(holding_down(false, 0, -16_001));
    assert!(!holding_down(false, 0, -16_000));
    assert!(!holding_down(false, 0, 20_000));
}

#[test]
fn command_keys_and_the_debug_switch() {
    assert_eq!(command_for(VK_HOME, false), Some(Command::ToggleBox));
    assert_eq!(command_for(VK_PAGE_UP, false), Some(Command::Scroll(-1)));
    assert_eq!(command_for(VK_PAGE_DOWN, false), Some(Command::Scroll(1)));
    assert_eq!(command_for(VK_F9, false), None);
    assert_eq!(command_for(VK_F9, true), Some(Command::Scan));
}

#[test]
fn a_held_key_gives_its_command_once() {
    let mut p = Poller::new();
    let mut down = [false; 9];
    down[0] = true;
    down[5] = true;
    assert_eq!(p.commands(down, true), vec![Command::ToggleBox, Command::Scan]);
    assert_eq!(p.commands(down, true), vec![]);
    assert_eq!(p.commands([false; 9], true), vec![]);
    assert_eq!(p.commands(down, false), vec![Command::ToggleBox]);
}

#[test]
fn the_poller_follows_edges() {
    let mut p = Poller::new();
    assert!(!p.menu(true));
    assert!(p.menu(false));
    assert!(!p.menu(false));
    assert_eq!(p.second_item(true), Hold::Start);
    p.held(Some(0x34));
    assert!(p.row_held());
    assert_eq!(p.second_item(true), Hold::Keep);
    assert_eq!(p.second_item(false), Hold::Release(0x34));
    assert!(!p.row_held());
    assert_eq!(p.selection(Some((Target::Bags, 4))), Some(Target::Bags));
    assert_eq!(p.selection(Some((Target::Bags, 4))), None);
    assert_eq!(p.selection(None), None);
    assert!(p.down(true));
    assert!(!p.down(true));
    assert_eq!(p.clicks(BUTTON_RIGHT_THUMB | BUTTON_LEFT_THUMB), (true, true));
    assert_eq!(p.clicks(BUTTON_RIGHT_THUMB), (false, false));
    assert!(p.pad(0, -20_000));
    assert!(!p.pad(1, 0));
}

#[test]
fn the_tail_of_a_two_slot_item_is_recognised() {
    assert!(on_tail(Some(180)));
    assert!(!on_tail(Some(3)));
    assert!(!on_tail(None));
}
