use re0inv::detour::Patch;
use re0inv::doors::{self, Doors, BRIEF_BITS, QUICK_FADE_BITS};
use re0inv::game::{self, count_bytes, find_bytes, for_build, Build, Module, SUPPORTED};
use re0inv::memory::{narrow, scan_chunk, Region};

/// A PE header with the given sections: (name, virtual address, size, characteristics).
fn headers(sections: &[(&str, u32, u32, u32)]) -> Vec<u8> {
    let mut h = vec![0u8; 0x400];
    h[0] = b'M';
    h[1] = b'Z';
    h[0x3C..0x40].copy_from_slice(&0x80u32.to_le_bytes());
    h[0x80..0x84].copy_from_slice(b"PE\0\0");
    h[0x86..0x88].copy_from_slice(&(sections.len() as u16).to_le_bytes());
    h[0x94..0x96].copy_from_slice(&0xE0u16.to_le_bytes());
    h[0x98 + 56..0x98 + 60].copy_from_slice(&0x5000u32.to_le_bytes());
    let table = 0x98 + 0xE0;
    for (i, (name, va, size, ch)) in sections.iter().enumerate() {
        let at = table + i * 40;
        h[at..at + name.len()].copy_from_slice(name.as_bytes());
        h[at + 8..at + 12].copy_from_slice(&size.to_le_bytes());
        h[at + 12..at + 16].copy_from_slice(&va.to_le_bytes());
        h[at + 36..at + 40].copy_from_slice(&ch.to_le_bytes());
    }
    h
}

#[test]
fn the_section_table_is_read_from_the_headers() {
    let h = headers(&[
        (".text", 0x1000, 0x800, 0x6000_0020),
        (".rdata", 0x2000, 0x100, 0x4000_0040),
        (".bind", 0x3000, 0x200, 0xE000_0020),
    ]);
    let m = Module::from_headers(0x400000, &h).unwrap();
    assert_eq!(m.base, 0x400000);
    assert_eq!(m.size, 0x5000);
    assert_eq!(m.sections.len(), 3);
    assert_eq!(m.sections[0].name, ".text");
    assert_eq!(m.sections[0].start, 0x401000);
    assert_eq!(m.sections[0].end(), 0x401800);
    assert!(m.sections[0].executable && !m.sections[0].writable);
    assert!(m.sections[2].writable);
    assert_eq!(m.section(".rdata").unwrap().start, 0x402000);
    assert_eq!(m.code().unwrap().name, ".text");
    assert!(m.is_drm_packed());
    assert_eq!(m.section_of(0x402050).unwrap().name, ".rdata");
    assert!(m.section_of(0x404000).is_none());
}

#[test]
fn without_text_the_code_is_the_first_executable_section_but_the_stub() {
    let h = headers(&[(".bind", 0x3000, 0x200, 0x6000_0020), ("CODE", 0x1000, 0x800, 0x6000_0020)]);
    let m = Module::from_headers(0x400000, &h).unwrap();
    assert_eq!(m.code().unwrap().name, "CODE");
}

#[test]
fn headers_that_are_not_a_pe_image_are_refused() {
    let mut h = headers(&[(".text", 0x1000, 0x800, 0x6000_0020)]);
    h[0] = b'X';
    assert!(Module::from_headers(0x400000, &h).is_none());
    let mut h = headers(&[(".text", 0x1000, 0x800, 0x6000_0020)]);
    h[0x80] = b'N';
    assert!(Module::from_headers(0x400000, &h).is_none());
    assert!(Module::from_headers(0x400000, &[0x4D, 0x5A]).is_none());
}

#[test]
fn byte_searches_find_the_first_place_and_count_overlaps() {
    assert_eq!(find_bytes(b"abcabc", b"ca"), Some(2));
    assert_eq!(find_bytes(b"abcabc", b""), None);
    assert_eq!(find_bytes(b"ab", b"abc"), None);
    assert_eq!(count_bytes(b"aaaa", b"aa"), 3);
    assert_eq!(count_bytes(b"aaaa", b""), 0);
}

#[test]
fn the_build_is_told_by_its_stamp() {
    let mut rdata = b"junk\0".to_vec();
    rdata.extend_from_slice(SUPPORTED.as_bytes());
    rdata.extend_from_slice(b"\0more");
    let build = Build::from_rdata(&rdata).unwrap();
    assert_eq!(build.stamp, SUPPORTED);
    assert!(build.is_supported());
    let a = for_build(&build).unwrap();
    assert_eq!(a.bag_count_empty, 0x004D_B480);
    assert_eq!(a.two_slot_first_empty_callers, [0x004D_B56D, 0x004D_B097]);
    assert_eq!(a.message_language, [0x0040_847E, 0x005D_67F1, 0x005D_6B61]);

    let other = Build::from_rdata(b"MasterRelease Feb 01 2025\0").unwrap();
    assert!(!other.is_supported());
    assert!(for_build(&other).is_none());
    assert!(Build::from_rdata(b"nothing here").is_none());
}

#[test]
fn a_stamp_is_read_no_further_than_its_limit() {
    let mut rdata = b"MasterRelease ".to_vec();
    rdata.extend_from_slice(&[b'x'; 100]);
    let build = Build::from_rdata(&rdata).unwrap();
    assert_eq!(build.stamp.len(), game::MAX_STAMP);
}

#[test]
fn a_chunk_scan_finds_aligned_values_up_to_the_limit() {
    let mut chunk = vec![0u8; 16];
    chunk[0..4].copy_from_slice(&7i32.to_le_bytes());
    chunk[5..9].copy_from_slice(&7i32.to_le_bytes());
    chunk[12..16].copy_from_slice(&7i32.to_le_bytes());
    let mut hits = Vec::new();
    assert!(!scan_chunk(&chunk, 0x1000, 7, 10, &mut hits));
    assert_eq!(hits, vec![0x1000, 0x100C]);
    let mut hits = vec![0x50];
    assert!(scan_chunk(&chunk, 0x1000, 7, 2, &mut hits));
    assert_eq!(hits, vec![0x50, 0x1000]);
}

#[test]
fn narrowing_keeps_the_addresses_that_still_hold_the_value() {
    let kept = narrow(&[1, 2, 3], &[Some(5), None, Some(5)], 5);
    assert_eq!(kept, vec![1, 3]);
    let r = Region { base: 0x1000, size: 0x20, protect: 4, writable: true };
    assert_eq!(r.end(), 0x1020);
}

#[test]
fn the_door_patches_set_a_brief_timer_and_quick_fades() {
    assert_eq!(BRIEF_BITS, 0.001f32.to_bits());
    assert_eq!(QUICK_FADE_BITS, 0.05f32.to_bits());
    let a = game::jan_2025();
    let timer = doors::timer_patches(&a);
    assert_eq!(timer.len(), 4);
    assert_eq!(timer[0].address, 0x0055_2A13);
    let mut brief = vec![0xC7, 0x47, 0x2C];
    brief.extend_from_slice(&0.001f32.to_le_bytes());
    brief.extend_from_slice(&[0xF3, 0x0F, 0x10, 0x47, 0x2C, 0xEB, 0x1C]);
    assert_eq!(timer[0].replacement, brief);
    assert_eq!(timer[0].replacement.len(), timer[0].expected.len());
    assert_eq!(timer[1].replacement, vec![0x90; 28]);
    assert_eq!(&timer[2].replacement[3..], &0.001f32.to_le_bytes());
    let all = doors::patches(&a, true);
    assert_eq!(all.len(), 8);
    assert_eq!(all[7].what, "final fade");
    assert_eq!(all[7].replacement, 0.05f32.to_le_bytes().to_vec());
    assert_eq!(doors::patches(&a, false).len(), 4);
    assert!(doors::applies(&all[4], &0.5f32.to_le_bytes()));
    assert!(!doors::applies(&all[4], &0.3f32.to_le_bytes()));
}

#[test]
fn door_patches_come_off_last_first() {
    let first = Patch::new(0x10, vec![1]).unwrap();
    let second = Patch::new(0x20, vec![2]).unwrap();
    let mut d = Doors::new(vec![first, second]);
    assert_eq!(d.len(), 2);
    let order = d.remove();
    assert_eq!(order.iter().map(|p| p.address()).collect::<Vec<_>>(), vec![0x20, 0x10]);
    assert_eq!(d.len(), 0);
}
