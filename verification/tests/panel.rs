use re0inv::panel::{
    cursor, cursor_candidates, field, is_open, mode, partner_cursor, phase, pulled_left, saved_slot,
    snapshot, MenuWrites, Panel, Snapshot, MENU_FIELDS_END,
};

fn menu_bytes() -> Vec<u8> {
    let mut m = vec![0u8; MENU_FIELDS_END];
    let mut put = |at: usize, v: i32| m[at..at + 4].copy_from_slice(&v.to_le_bytes());
    put(0x290, 6);
    put(0x294, 2);
    put(0x2AC, 3);
    put(0x2B0, -1);
    put(0x2B4, 5);
    put(0x2B8, 4);
    put(0x2BC, 1);
    m[0x2C4] = 1;
    m[0x2C5] = 0;
    m[0x2C8] = 1;
    m
}

#[test]
fn the_menu_fields_are_read_little_endian_at_their_offsets() {
    let m = menu_bytes();
    assert_eq!(phase(&m), Some(2));
    assert_eq!(cursor(&m), Some(5));
    assert_eq!(partner_cursor(&m), Some(1));
    assert_eq!(saved_slot(&m), Some(4));
    assert_eq!(mode(&m), Some(3));
    assert_eq!(cursor_candidates(&m), [Some(3), Some(-1), Some(5), Some(1)]);
    assert_eq!(field(&m, MENU_FIELDS_END - 2), None);
    assert_eq!(
        snapshot(&m),
        Some(Snapshot {
            phase: 2,
            transition: 6,
            mode: 3,
            action: -1,
            cursor: 5,
            saved_slot: 4,
            partner_cursor: 1,
            flags: [1, 0, 1],
        })
    );
    assert_eq!(snapshot(&m[..0x2C0]), None);
    assert_eq!(phase(&[]), None);
}

#[test]
fn any_phase_but_zero_is_an_open_screen() {
    assert!(!is_open(None));
    assert!(!is_open(Some(0)));
    assert!(is_open(Some(1)));
    assert!(is_open(Some(7)));
}

#[test]
fn pulling_left_stops_at_the_first_slot() {
    assert_eq!(pulled_left(3), Some(2));
    assert_eq!(pulled_left(0), None);
    assert_eq!(pulled_left(-1), None);
}

#[test]
fn a_redraw_needs_a_fresh_request_an_open_screen_and_a_known_menu() {
    let mut p = Panel::new();
    p.request_redraw(1000);
    assert_eq!(p.redraw_if_requested(true, 1100, 0x5E7240), None);
    p.observe(0x3000, false, 0, 1);
    assert_eq!(p.menu(), Some(0x3000));
    assert_eq!(p.draw_count(), 1);
    p.request_redraw(2000);
    assert_eq!(p.redraw_if_requested(false, 2100, 0x5E7240), None);
    assert_eq!(p.redraw_if_requested(true, 2100, 0x5E7240), Some((0x5E7240, 0x3000)));
    p.request_redraw(2200);
    assert_eq!(p.redraw_if_requested(true, 2250, 0x5E7240), None);
    p.redraw_finished();
    p.request_redraw(3000);
    assert_eq!(p.redraw_if_requested(true, 3500, 0x5E7240), None);
    p.request_redraw(4000);
    assert_eq!(p.redraw_if_requested(true, 4499, 0), None);
}

#[test]
fn the_box_borrows_the_partner_half_and_gives_it_back() {
    let mut p = Panel::new();
    assert_eq!(p.observe(3, true, 0, 5), MenuWrites { partner_shown: None, exchange: None });
    assert_eq!(p.menu(), None);
    assert_eq!(
        p.observe(0x3000, true, 0, 5),
        MenuWrites { partner_shown: Some(1), exchange: Some(0) }
    );
    assert_eq!(p.observe(0x3000, true, 1, 9), MenuWrites { partner_shown: None, exchange: Some(0) });
    assert_eq!(p.restore_exchange(), Some(5));
    assert_eq!(p.restore_partner_half(), Some((0x3000, 5)));
    assert_eq!(p.restore_partner_half(), None);
    assert_eq!(p.observe(0x3000, false, 0, 5), MenuWrites { partner_shown: None, exchange: None });
}
