use re0inv::accessor::{
    character_bag, is_menu_code, needs_played_id, offset_for_id, partner_bag, resolve, BagAnswer,
};

const MENU: usize = 0x005E_7240;
const WORLD: usize = 0x0045_0000;

#[test]
fn character_ids_map_to_the_two_inline_bags() {
    for id in [1, 2, 3] {
        assert_eq!(offset_for_id(id), Some(0x20));
    }
    for id in [5, 7] {
        assert_eq!(offset_for_id(id), Some(0x60));
    }
    for id in [0, 4, 6, 8, -1] {
        assert_eq!(offset_for_id(id), None);
    }
}

#[test]
fn the_inventory_screen_is_one_stretch_of_code() {
    assert!(is_menu_code(0x005D_0000));
    assert!(is_menu_code(0x005E_1D10));
    assert!(!is_menu_code(0x005F_0000));
    assert!(!is_menu_code(0x005C_FFFF));
}

#[test]
fn an_unusable_object_or_unknown_character_gets_no_bag() {
    assert_eq!(resolve(0, Some(1)), BagAnswer::Nothing);
    assert_eq!(resolve(0x1002, Some(1)), BagAnswer::Nothing);
    assert_eq!(resolve(0x1000, None), BagAnswer::Nothing);
    assert_eq!(resolve(0x1000, Some(4)), BagAnswer::Nothing);
    assert_eq!(resolve(0x1000, Some(7)), BagAnswer::Store { owner: 0x1000, offset: 0x60 });
}

#[test]
fn the_partner_half_shows_the_box_only_to_the_screen() {
    assert_eq!(partner_bag(0x1000, Some(5), MENU, Some(0x9000)), BagAnswer::ItemBox(0x9000));
    assert_eq!(
        partner_bag(0x1000, Some(5), WORLD, Some(0x9000)),
        BagAnswer::Store { owner: 0x1000, offset: 0x60 }
    );
    assert_eq!(partner_bag(0x1000, Some(5), MENU, None), BagAnswer::Store { owner: 0x1000, offset: 0x60 });
}

#[test]
fn asked_by_id_the_box_stands_in_for_everyone_but_the_played_character() {
    assert!(needs_played_id(Some(0x9000), MENU));
    assert!(!needs_played_id(None, MENU));
    assert!(!needs_played_id(Some(0x9000), WORLD));
    assert_eq!(character_bag(0x1000, 5, MENU, Some(0x9000), Some(1)), BagAnswer::ItemBox(0x9000));
    assert_eq!(
        character_bag(0x1000, 1, MENU, Some(0x9000), Some(1)),
        BagAnswer::Store { owner: 0x1000, offset: 0x20 }
    );
    assert_eq!(
        character_bag(0x1000, 5, WORLD, Some(0x9000), Some(1)),
        BagAnswer::Store { owner: 0x1000, offset: 0x60 }
    );
    assert_eq!(
        character_bag(0x1000, 5, MENU, Some(0x9000), None),
        BagAnswer::Store { owner: 0x1000, offset: 0x60 }
    );
    assert_eq!(character_bag(0, 5, MENU, Some(0x9000), Some(1)), BagAnswer::Nothing);
}
