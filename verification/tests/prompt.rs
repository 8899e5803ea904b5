use re0inv::detour::call_bytes;
use re0inv::game::jan_2025;
use re0inv::prompt::{
    message_patches, prompt_patches, redirect_for, Prompt, PromptHandlers, COMPARE_CHOICE, SET_ASKING,
    SET_SILENT,
};

fn rel32(opcode: u8, at: usize, to: usize) -> Vec<u8> {
    let d = (to as i64 - (at as i64 + 5)) as i32;
    let mut v = vec![opcode];
    v.extend_from_slice(&d.to_le_bytes());
    v
}

fn handlers() -> PromptHandlers {
    PromptHandlers {
        had_ribbon: 0x1000_0000,
        no_ribbon: 0x1000_0100,
        choice: 0x1000_0200,
        open_screen: 0x1000_0300,
        message: [0x1000_0400, 0x1000_0500, 0x1000_0600],
    }
}

#[test]
fn with_a_ribbon_the_third_choice_opens_the_box() {
    let mut p = Prompt::new();
    p.note_ribbon(1);
    assert_eq!(p.decide_choice(3), 0);
    assert!(p.opening_box());
    assert!(!p.opening_box());
    assert_eq!(p.decide_choice(1), 0);
    assert!(!p.opening_box());
}

#[test]
fn without_a_ribbon_yes_opens_the_box_and_no_always_declines() {
    let mut p = Prompt::new();
    p.note_ribbon(0);
    assert_eq!(p.decide_choice(2), 1);
    assert!(!p.opening_box());
    assert_eq!(p.decide_choice(1), 0);
    assert!(p.opening_box());
    assert_eq!(p.decide_choice(3), 0);
    assert!(!p.opening_box());
}

#[test]
fn a_new_prompt_forgets_what_the_last_one_wanted() {
    let mut p = Prompt::new();
    p.note_ribbon(0);
    p.decide_choice(1);
    p.note_ribbon(1);
    assert!(!p.opening_box());
}

#[test]
fn only_languages_with_a_shipped_archive_are_redirected() {
    assert_eq!(redirect_for(b"eng"), Some("eng_inv"));
    assert_eq!(redirect_for(b"chT"), Some("chT_inv"));
    assert_eq!(redirect_for(b"spa"), Some("spa_inv"));
    assert_eq!(redirect_for(b"kor"), None);
    assert_eq!(redirect_for(b"en"), None);
    assert_eq!(redirect_for(b"engl"), None);
}

#[test]
fn the_prompt_patches_jump_and_call_into_the_handlers() {
    let a = jan_2025();
    let h = handlers();
    let found = rel32(0xE8, a.typewriter_open_screen, a.set_room_phase);
    let plans = prompt_patches(&a, &h, &found);
    assert_eq!(plans.len(), 4);
    let first = plans[0].as_ref().unwrap();
    assert_eq!(first.address, a.typewriter_has_ribbon);
    assert_eq!(first.expected, SET_ASKING.to_vec());
    let mut want = rel32(0xE9, a.typewriter_has_ribbon, h.had_ribbon);
    want.extend_from_slice(&[0x90, 0x90]);
    assert_eq!(first.replacement, want);
    assert_eq!(plans[1].as_ref().unwrap().expected, SET_SILENT.to_vec());
    let third = plans[2].as_ref().unwrap();
    assert_eq!(third.expected, COMPARE_CHOICE.to_vec());
    assert_eq!(third.replacement, rel32(0xE8, a.typewriter_choice, h.choice));
    let fourth = plans[3].as_ref().unwrap();
    assert_eq!(fourth.expected, found);
    assert_eq!(fourth.replacement, rel32(0xE8, a.typewriter_open_screen, h.open_screen));
    assert_eq!(call_bytes(a.typewriter_open_screen, a.set_room_phase).unwrap().to_vec(), found);
}

#[test]
fn an_open_screen_call_that_goes_elsewhere_is_left_alone() {
    let a = jan_2025();
    let h = handlers();
    let elsewhere = rel32(0xE8, a.typewriter_open_screen, a.set_room_phase + 16);
    let plans = prompt_patches(&a, &h, &elsewhere);
    assert!(plans[3].is_none());
    assert!(plans[0].is_some());
    let plans = prompt_patches(&a, &h, &[0x90; 5]);
    assert!(plans[3].is_none());
}

#[test]
fn each_message_site_trades_its_push_for_a_jump() {
    let a = jan_2025();
    let h = handlers();
    let plans = message_patches(&a, &h);
    assert_eq!(plans.len(), 3);
    let mut push = vec![0x68];
    push.extend_from_slice(&(a.message_format as u32).to_le_bytes());
    for (i, plan) in plans.iter().enumerate() {
        let plan = plan.as_ref().unwrap();
        assert_eq!(plan.address, a.message_language[i]);
        assert_eq!(plan.expected, push);
        assert_eq!(plan.replacement, rel32(0xE9, a.message_language[i], h.message[i]));
    }
}
