use re0inv::detour::Patch;
use re0inv::game::jan_2025;
use re0inv::screen::{
    screen_patches, still_valid, Menu, PartnerChange, Screen, ScreenHandlers, BUMP_PHASE, CLOSING,
    TEST_PARTNER_SHOWN, VALIDATION,
};

fn rel32(opcode: u8, at: usize, to: usize) -> Vec<u8> {
    let d = (to as i64 - (at as i64 + 5)) as i32;
    let mut v = vec![opcode];
    v.extend_from_slice(&d.to_le_bytes());
    v
}

fn handlers() -> ScreenHandlers {
    ScreenHandlers { animation: 0x1000_0000, start: 0x1000_0100, change: 0x1000_0200, close: 0x1000_0300, valid: 0x1000_0400 }
}

#[test]
fn the_screen_patches_cover_the_three_moments_and_the_validation() {
    let a = jan_2025();
    let h = handlers();
    let found = rel32(0xE8, a.inventory_open_animation, a.play_menu_animation);
    let plans = screen_patches(&a, &h, &found);
    assert_eq!(plans.len(), 5);
    let animation = plans[0].as_ref().unwrap();
    assert_eq!(animation.expected, found);
    assert_eq!(animation.replacement, rel32(0xE8, a.inventory_open_animation, h.animation));
    let expected: [&[u8]; 4] = [&BUMP_PHASE, &TEST_PARTNER_SHOWN, &CLOSING, &VALIDATION];
    let sites = [a.inventory_menu_start, a.inventory_change_character, a.inventory_menu_close, a.partner_half_valid];
    let to = [h.start, h.change, h.close, h.valid];
    for k in 0..4 {
        let plan = plans[k + 1].as_ref().unwrap();
        assert_eq!(plan.address, sites[k]);
        assert_eq!(plan.expected, expected[k].to_vec());
        let mut want = rel32(0xE9, sites[k], to[k]);
        want.resize(expected[k].len(), 0x90);
        assert_eq!(plan.replacement, want);
    }
}

#[test]
fn an_animation_call_that_has_drifted_is_refused() {
    let a = jan_2025();
    let drifted = rel32(0xE8, a.inventory_open_animation, a.play_menu_animation + 0x40);
    let plans = screen_patches(&a, &handlers(), &drifted);
    assert!(plans[0].is_none());
    assert!(plans[1..].iter().all(|p| p.is_some()));
}

#[test]
fn swapping_characters_mid_screen_closes_the_box() {
    let mut s = Screen::new();
    assert!(s.opening_screen(true));
    assert!(!s.opening_screen(false));
    assert!(s.screen_ready(true, 0x7000));
    assert_eq!(s.character_changed(true, 0x7000), PartnerChange::StillOurs);
    assert_eq!(s.character_changed(true, 0x8000), PartnerChange::BoxLeaves);
    assert_eq!(s.character_changed(false, 0x8000), PartnerChange::Nothing);
    assert!(!s.screen_ready(false, 0x9000));
    assert_eq!(s.character_changed(true, 0x7000), PartnerChange::StillOurs);
}

#[test]
fn the_box_does_not_walk_away() {
    assert_eq!(still_valid(true, Some(1)), 0);
    assert_eq!(still_valid(false, Some(1)), 1);
    assert_eq!(still_valid(false, Some(0)), 0);
    assert_eq!(still_valid(false, None), 0);
}

#[test]
fn removing_the_screen_patches_reverts_the_last_first() {
    let first = Patch::new(0x100, vec![1, 2, 3, 4, 5]).unwrap();
    let second = Patch::new(0x200, vec![6, 7, 8, 9, 10]).unwrap();
    let mut m = Menu::new(vec![first, second]);
    assert_eq!(m.len(), 2);
    let out = m.remove();
    assert_eq!(out.iter().map(|p| p.address()).collect::<Vec<_>>(), vec![0x200, 0x100]);
    assert_eq!(m.len(), 0);
}
