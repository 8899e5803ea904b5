use re0inv::analyzer::bounds::{self, Access};
use re0inv::analyzer::classify::{self, Signals};
use re0inv::analyzer::disasm::{
    self, MNEMONIC_ADD, MNEMONIC_COMPARE, MNEMONIC_INC, MNEMONIC_JA, MNEMONIC_JAE, MNEMONIC_JB,
    MNEMONIC_JBE, MNEMONIC_JCXZ, MNEMONIC_JE, MNEMONIC_JECXZ, MNEMONIC_JG, MNEMONIC_JGE, MNEMONIC_JL,
    MNEMONIC_JLE, MNEMONIC_JMP, MNEMONIC_JNE, MNEMONIC_JNO, MNEMONIC_JNP, MNEMONIC_JNS, MNEMONIC_JO,
    MNEMONIC_JP, MNEMONIC_JS, MNEMONIC_RET, MNEMONIC_RETF, REGISTER_NONE,
};
use re0inv::analyzer::disp;
use re0inv::analyzer::image::Image;
use re0inv::analyzer::pattern;
use re0inv::analyzer::xref::{self, RefKind};

use iced_x86::Mnemonic;

fn image(base: u64, bytes: &[u8]) -> Image {
    Image { base, bytes: bytes.to_vec() }
}

#[test]
fn addresses_translate_to_offsets_within_the_section() {
    let img = image(0x401000, &[1, 2, 3, 4, 5]);
    assert_eq!(img.end(), 0x401005);
    assert!(img.contains(0x401000));
    assert!(!img.contains(0x401005));
    assert_eq!(img.offset_of(0x401003), Some(3));
    assert_eq!(img.offset_of(0x400FFF), None);
    assert_eq!(img.from(0x401003), Some(&[4u8, 5][..]));
    assert_eq!(img.slice(0x401001, 2), Some(&[2u8, 3][..]));
    assert_eq!(img.slice(0x401003, 10), Some(&[4u8, 5][..]));
    assert_eq!(img.slice(0x401005, 1), None);
}

#[test]
fn patterns_parse_bytes_and_wildcards() {
    assert_eq!(pattern::parse("8D ?? 60").unwrap(), vec![Some(0x8D), None, Some(0x60)]);
    assert_eq!(pattern::parse("8d??60").unwrap(), vec![Some(0x8D), None, Some(0x60)]);
    assert_eq!(pattern::parse("8D 6").unwrap_err(), "'8D 6' has an odd number of hex digits");
    assert_eq!(pattern::parse("8D G0").unwrap_err(), "'G0' is not a hex byte");
    assert_eq!(pattern::parse("  ").unwrap_err(), "empty pattern");
}

#[test]
fn a_lone_question_mark_is_a_wildcard_too() {
    assert_eq!(pattern::parse("8D ? 60").unwrap(), vec![Some(0x8D), None, Some(0x60)]);
    assert_eq!(pattern::parse("8D?60").unwrap(), vec![Some(0x8D), None, Some(0x60)]);
    assert_eq!(pattern::parse("???").unwrap(), vec![None, None]);
    assert_eq!(pattern::parse("8?").unwrap_err(), "'8?' is not a hex byte");
}

#[test]
fn a_pattern_is_found_everywhere_it_matches() {
    let img = image(0x1000, &[0x8D, 0x01, 0x60, 0x8D, 0x02, 0x60, 0x8D]);
    let p = pattern::parse("8D ?? 60").unwrap();
    assert_eq!(pattern::find(&img, &p), vec![0x1000, 0x1003]);
}

#[test]
fn a_survey_keeps_the_range_and_groups_by_function() {
    let mut bytes = vec![0xCC, 0xCC, 0xCC, 0xCC];
    bytes.extend_from_slice(&[0x90, 0x8D, 0x01, 0x60, 0x90, 0x8D, 0x02, 0x60]);
    let img = image(0x1000, &bytes);
    let p = pattern::parse("8D ?? 60").unwrap();
    let all = pattern::survey(&img, &p, None);
    assert_eq!(all.total, 2);
    assert_eq!(all.hits, vec![0x1005, 0x1009]);
    assert_eq!(all.groups.starts, vec![0x1004]);
    assert_eq!(all.groups.sites, vec![vec![0x1005, 0x1009]]);
    assert!(all.groups.orphans.is_empty());
    let some = pattern::survey(&img, &p, Some((0x1006, 0x2000)));
    assert_eq!(some.total, 2);
    assert_eq!(some.hits, vec![0x1009]);
}

#[test]
fn direct_calls_and_jumps_are_found_by_their_target() {
    // call 0x1010 at 0x1000, jmp 0x1010 at 0x1005, then padding.
    let bytes = [0xE8, 0x0B, 0, 0, 0, 0xE9, 0x06, 0, 0, 0, 0x90, 0x90, 0x90];
    let img = image(0x1000, &bytes);
    let refs = xref::code_refs(&img, 0x1010);
    assert_eq!(refs.len(), 2);
    assert_eq!((refs[0].from, refs[0].kind), (0x1000, RefKind::Call));
    assert_eq!((refs[1].from, refs[1].kind), (0x1005, RefKind::Jump));
    assert!(xref::code_refs(&img, 0x1011).is_empty());
}

#[test]
fn a_backward_call_wraps_to_its_target() {
    // call -0x10 from 0x1000 lands on 0x1000 + 5 - 0x10.
    let bytes = [0xE8, 0xF0, 0xFF, 0xFF, 0xFF, 0x90];
    let img = image(0x1000, &bytes);
    let refs = xref::code_refs(&img, 0x0FF5);
    assert_eq!(refs.len(), 1);
    assert_eq!(refs[0].from, 0x1000);
}

#[test]
fn literal_addresses_are_found_at_any_alignment() {
    let bytes = [0x90, 0x44, 0xBF, 0xDC, 0x00, 0x90, 0x44, 0xBF, 0xDC, 0x00, 0x90];
    let img = image(0x2000, &bytes);
    let refs = xref::data_refs(&img, 0xDCBF44);
    assert_eq!(refs.iter().map(|r| r.from).collect::<Vec<_>>(), vec![0x2001, 0x2006]);
    assert!(refs.iter().all(|r| r.kind == RefKind::Data));
}

#[test]
fn the_enclosing_function_starts_after_the_padding() {
    let bytes = [0x90, 0xCC, 0xCC, 0xCC, 0xCC, 0x55, 0x8B, 0xEC, 0x90, 0x90];
    let img = image(0x1000, &bytes);
    assert_eq!(xref::enclosing_function(&img, 0x1008, 0x2000), Some(0x1005));
    assert_eq!(xref::enclosing_function(&img, 0x1008, 2), None);
}

#[test]
fn mnemonic_numbers_are_the_decoders_own() {
    let pairs = [
        (Mnemonic::Add, MNEMONIC_ADD),
        (Mnemonic::Cmp, MNEMONIC_COMPARE),
        (Mnemonic::Inc, MNEMONIC_INC),
        (Mnemonic::Ja, MNEMONIC_JA),
        (Mnemonic::Jae, MNEMONIC_JAE),
        (Mnemonic::Jb, MNEMONIC_JB),
        (Mnemonic::Jbe, MNEMONIC_JBE),
        (Mnemonic::Jcxz, MNEMONIC_JCXZ),
        (Mnemonic::Je, MNEMONIC_JE),
        (Mnemonic::Jecxz, MNEMONIC_JECXZ),
        (Mnemonic::Jg, MNEMONIC_JG),
        (Mnemonic::Jge, MNEMONIC_JGE),
        (Mnemonic::Jl, MNEMONIC_JL),
        (Mnemonic::Jle, MNEMONIC_JLE),
        (Mnemonic::Jmp, MNEMONIC_JMP),
        (Mnemonic::Jne, MNEMONIC_JNE),
        (Mnemonic::Jno, MNEMONIC_JNO),
        (Mnemonic::Jnp, MNEMONIC_JNP),
        (Mnemonic::Jns, MNEMONIC_JNS),
        (Mnemonic::Jo, MNEMONIC_JO),
        (Mnemonic::Jp, MNEMONIC_JP),
        (Mnemonic::Js, MNEMONIC_JS),
        (Mnemonic::Ret, MNEMONIC_RET),
        (Mnemonic::Retf, MNEMONIC_RETF),
    ];
    for (m, n) in pairs {
        assert_eq!(m as u16, n);
    }
    assert_eq!(iced_x86::Register::None as u32, REGISTER_NONE);
    assert_eq!(iced_x86::OpKind::Immediate8 as u32, classify::OP_KIND_IMMEDIATE8);
    assert_eq!(iced_x86::OpKind::Immediate8_2nd as u32, classify::OP_KIND_IMMEDIATE8_2ND);
    assert_eq!(iced_x86::OpKind::Immediate16 as u32, classify::OP_KIND_IMMEDIATE16);
    assert_eq!(iced_x86::OpKind::Immediate32 as u32, classify::OP_KIND_IMMEDIATE32);
    assert_eq!(iced_x86::OpKind::Immediate8to16 as u32, classify::OP_KIND_IMMEDIATE8TO16);
    assert_eq!(iced_x86::OpKind::Immediate8to32 as u32, classify::OP_KIND_IMMEDIATE8TO32);
}

#[test]
fn instructions_decode_with_their_addresses_bytes_and_text() {
    let img = image(0x401000, &[0x55, 0x8B, 0xEC, 0xC3, 0xCC, 0xCC, 0xCC]);
    let lines = disasm::decode(&img, 0x401000, 3);
    assert_eq!(lines.len(), 3);
    assert_eq!(lines[0].va, 0x401000);
    assert_eq!(lines[0].bytes, vec![0x55]);
    assert_eq!(lines[0].text, "push ebp");
    assert_eq!(lines[1].va, 0x401001);
    assert_eq!(lines[1].bytes, vec![0x8B, 0xEC]);
    assert_eq!(lines[1].text, "mov ebp, esp");
    assert_eq!(lines[2].va, 0x401003);
    assert_eq!(lines[2].instruction.mnemonic, MNEMONIC_RET);
    assert!(disasm::decode(&img, 0x402000, 3).is_empty());
}

#[test]
fn a_function_ends_at_the_padding_after_it() {
    let img = image(0x401000, &[0x55, 0x8B, 0xEC, 0xC3, 0xCC, 0xCC, 0xCC, 0x90]);
    assert_eq!(disasm::extent(&img, 0x401000), Some(0x401004));
    let lines = disasm::function(&img, 0x401000);
    assert_eq!(lines.iter().map(|l| l.va).collect::<Vec<_>>(), vec![0x401000, 0x401001, 0x401003]);
}

#[test]
fn without_padding_a_function_runs_to_the_return_no_branch_passes() {
    // je +1 over the first ret, so that ret is not the end; the second is.
    let img = image(0x1000, &[0x74, 0x01, 0xC3, 0x90, 0xC3, 0x90, 0x90]);
    assert_eq!(disasm::extent(&img, 0x1000), None);
    let lines = disasm::function(&img, 0x1000);
    assert_eq!(lines.iter().map(|l| l.va).collect::<Vec<_>>(), vec![0x1000, 0x1002, 0x1003, 0x1004]);
    assert!(disasm::is_branch(MNEMONIC_JE));
    assert!(!disasm::is_branch(MNEMONIC_RET));
}

#[test]
fn a_bound_check_before_the_assert_is_found() {
    let mut bytes = vec![0x83, 0xFE, 0x06, 0x72, 0x10, 0x68, 0xD0, 0x57, 0xCB, 0x00];
    bytes.extend_from_slice(&[0x90; 8]);
    let img = image(0x1000, &bytes);
    let sites = bounds::find(&img, 6, bounds::DEFAULT_ARRAY_ASSERT_STRING);
    assert_eq!(sites.iter().map(|s| s.check).collect::<Vec<_>>(), vec![0x1000]);
    assert!(bounds::find(&img, 7, bounds::DEFAULT_ARRAY_ASSERT_STRING).is_empty());
}

#[test]
fn a_check_inside_a_loop_iterates() {
    // cmp esi, 6; inc esi; jmp back to the cmp; ret
    let img = image(0x1000, &[0x83, 0xFE, 0x06, 0x46, 0xEB, 0xFA, 0xC3, 0x90]);
    assert_eq!(bounds::access_at(&img, 0x1000), Access::Iterates);
    // cmp esi, 6; inc esi; ret: no branch back
    let img = image(0x1000, &[0x83, 0xFE, 0x06, 0x46, 0xC3, 0x90]);
    assert_eq!(bounds::access_at(&img, 0x1000), Access::SingleSlot);
}

#[test]
fn signals_give_a_verdict() {
    let mut s = Signals::default();
    assert_eq!(s.verdict(), "single slot");
    s.personal_item = 1;
    assert_eq!(s.verdict(), "LAYOUT");
    s.array_size_immediate = 1;
    assert_eq!(s.verdict(), "SCANS + LAYOUT");
    s.personal_item = 0;
    assert_eq!(s.verdict(), "SCANS");
    let t = Signals { slot_count_compare: 1, ..Signals::default() };
    assert!(!t.scans_bag());
    let u = Signals { slot_count_compare: 1, backward_branch: 1, ..Signals::default() };
    assert!(u.scans_bag());
}

#[test]
fn instructions_are_scored_for_bag_signals() {
    // cmp eax, 6; mov eax, [ecx+0x3C]; jmp back to the cmp
    let img = image(0x1000, &[0x83, 0xF8, 0x06, 0x8B, 0x41, 0x3C, 0xEB, 0xF8, 0x90]);
    let lines = disasm::decode(&img, 0x1000, 3);
    let mut s = Signals::default();
    classify::score_lines(&lines, &mut s);
    assert_eq!(s.instructions, 3);
    assert_eq!(s.slot_count_compare, 1);
    assert_eq!(s.equipped_index, 1);
    assert_eq!(s.backward_branch, 1);
    assert!(s.scans_bag());
    assert!(s.assumes_layout());
}

#[test]
fn a_displacement_is_found_in_every_addressing_form() {
    // mov eax, [ecx+0x34]; mov [edx+0x34], eax; mov eax, [0x34]
    let img = image(0x1000, &[0x8B, 0x41, 0x34, 0x89, 0x42, 0x34, 0xA1, 0x34, 0, 0, 0, 0x90]);
    let uses = disp::find(&img, 0x34, 0x1000, 0x100B);
    assert_eq!(uses.iter().map(|u| u.va).collect::<Vec<_>>(), vec![0x1000, 0x1003]);
    let early = disp::find(&img, 0x34, 0x1000, 0x1003);
    assert_eq!(early.len(), 1);
}

#[test]
fn a_call_that_ends_the_section_is_found() {
    let img = image(0x1000, &[0xE8, 0x00, 0x00, 0x00, 0x00]);
    let refs = xref::code_refs(&img, 0x1005);
    assert_eq!(refs.len(), 1);
    assert_eq!(refs[0].from, 0x1000);
    assert_eq!(refs[0].kind, RefKind::Call);
}

#[test]
fn a_value_that_is_the_whole_section_is_found() {
    let img = image(0x1000, &[0x44, 0x33, 0x22, 0x11]);
    let refs = xref::data_refs(&img, 0x1122_3344);
    assert_eq!(refs.len(), 1);
    assert_eq!(refs[0].from, 0x1000);
    assert_eq!(refs[0].kind, RefKind::Data);
}

#[test]
fn the_walk_back_stops_at_the_bottom_of_the_address_space() {
    let img = image(0, &[0x90; 8]);
    assert_eq!(xref::enclosing_function(&img, 2, 0x2000), None);
    let padded = image(0, &[0xCC, 0xCC, 0xCC, 0xCC, 0x90, 0x90]);
    assert_eq!(xref::enclosing_function(&padded, 5, 0x2000), Some(4));
    assert_eq!(xref::enclosing_function(&padded, 3, 0x2000), None);
}
