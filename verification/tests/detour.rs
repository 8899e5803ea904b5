use re0inv::detour::{jump_bytes, plan_detour, DetourError, Hooks, Detour, Patch, JUMP_LENGTH, OP_JMP_REL32};

#[test]
fn a_forward_jump_encodes_the_distance_past_the_instruction() {
    let bytes = jump_bytes(0x1000, 0x1010).unwrap();
    assert_eq!(bytes, [0xE9, 0x0B, 0x00, 0x00, 0x00]);
}

#[test]
fn a_backward_jump_encodes_a_negative_displacement() {
    let bytes = jump_bytes(0x1010, 0x1000).unwrap();
    assert_eq!(bytes[0], OP_JMP_REL32);

    let displacement = i32::from_le_bytes([bytes[1], bytes[2], bytes[3], bytes[4]]);
    assert_eq!(displacement, -0x15);
}

#[test]
fn a_jump_to_the_instruction_after_itself_has_no_displacement() {
    let bytes = jump_bytes(0x1000, 0x1005).unwrap();
    assert_eq!(bytes, [0xE9, 0x00, 0x00, 0x00, 0x00]);
}

#[test]
fn round_tripping_the_displacement_lands_on_the_target() {
    for (from, to) in [
        (0x0040_1000usize, 0x0050_0000usize),
        (0x0050_0000, 0x0040_1000),
        (0x004D_B480, 0x1000_0000),
    ] {
        let bytes = jump_bytes(from, to).unwrap();
        let displacement = i32::from_le_bytes([bytes[1], bytes[2], bytes[3], bytes[4]]);
        let landed = (from as i64 + JUMP_LENGTH as i64 + displacement as i64) as usize;
        assert_eq!(landed, to);
    }
}

#[test]
fn an_unreachable_target_is_refused_rather_than_truncated() {
    assert!(jump_bytes(0, u64::MAX as usize).is_none());
}

#[test]
fn a_detour_is_written_only_over_the_expected_bytes() {
    let expected = [0x55, 0x8B, 0xEC, 0x83, 0xEC, 0x10];
    let planned = plan_detour(0x1000, 0x1010, &expected, &expected).unwrap();
    assert_eq!(planned, vec![0xE9, 0x0B, 0x00, 0x00, 0x00, 0x90]);

    let found = [0x55, 0x8B, 0xEC, 0x83, 0xEC, 0x20];
    assert_eq!(plan_detour(0x1000, 0x1010, &expected, &found), Err(DetourError::Mismatch));
    assert_eq!(plan_detour(0x1000, 0x1010, &expected[..4], &expected[..4]), Err(DetourError::TooShort));
    assert_eq!(
        plan_detour(0, u64::MAX as usize, &expected, &expected),
        Err(DetourError::OutOfRange)
    );
}

#[test]
fn hooks_are_removed_last_installed_first() {
    let mut hooks = Hooks::new();
    assert!(hooks.is_empty());
    hooks.record(Detour::new("first", Patch::new(0x1000, vec![1, 2, 3, 4, 5]).unwrap()));
    hooks.record(Detour::new("second", Patch::new(0x2000, vec![6, 7, 8, 9, 10]).unwrap()));
    assert_eq!(hooks.len(), 2);

    let order: Vec<&str> = hooks.removal_order().iter().map(|d| d.name()).collect();
    assert_eq!(order, vec!["second", "first"]);
    assert_eq!(hooks.removal_order()[0].patch().address(), 0x2000);
    assert_eq!(hooks.removal_order()[1].patch().original(), &[1, 2, 3, 4, 5]);

    hooks.clear();
    assert_eq!(hooks.len(), 0);
    assert!(Patch::new(0x1000, vec![]).is_none());
}
