use re0inv::selection::{ranked, sample, Candidate, Watch, REPORT_LIMIT, SCAN_BYTES};

fn with_word(base: &[u8], offset: usize, value: i32) -> Vec<u8> {
    let mut v = base.to_vec();
    v[offset..offset + 4].copy_from_slice(&value.to_le_bytes());
    v
}

#[test]
fn a_field_is_reported_on_its_fifth_move_inside_the_range() {
    let mut watch: Option<Watch> = None;
    let mut bytes = vec![0u8; SCAN_BYTES];
    assert!(sample(&mut watch, 0x3000, bytes.clone()).is_empty());
    let mut reports = vec![];
    for step in 1..=6 {
        bytes = with_word(&bytes, 0x2B4, step % 2 + 1);
        // A counter passing through the range on its way elsewhere.
        bytes = with_word(&bytes, 0x100, step * 100);
        reports.push(sample(&mut watch, 0x3000, bytes.clone()));
    }
    for early in &reports[..4] {
        assert!(early.is_empty());
    }
    assert_eq!(reports[4], vec![Candidate { offset: 0x2B4, was: 1, now: 2 }]);
    assert!(reports[5].is_empty());
    let top = ranked(watch.as_ref().unwrap());
    assert_eq!(top, vec![(6, 0x2B4)]);
}

#[test]
fn another_menu_object_starts_the_count_over() {
    let mut watch: Option<Watch> = None;
    let bytes = vec![0u8; SCAN_BYTES];
    sample(&mut watch, 0x3000, bytes.clone());
    sample(&mut watch, 0x3000, with_word(&bytes, 8, 1));
    assert_eq!(ranked(watch.as_ref().unwrap()), vec![(1, 8)]);
    sample(&mut watch, 0x4000, bytes.clone());
    assert_eq!(watch.as_ref().unwrap().menu(), 0x4000);
    assert!(ranked(watch.as_ref().unwrap()).is_empty());
}

#[test]
fn the_ranking_keeps_the_busiest_fields_first() {
    let mut watch: Option<Watch> = None;
    let mut bytes = vec![0u8; SCAN_BYTES];
    sample(&mut watch, 0x3000, bytes.clone());
    for round in 0..20usize {
        for field in 0..16usize {
            if round % (field + 1) == 0 {
                let at = field * 4;
                let now = if bytes[at] == 0 { 1 } else { 0 };
                bytes = with_word(&bytes, at, now);
            }
        }
        sample(&mut watch, 0x3000, bytes.clone());
    }
    let top = ranked(watch.as_ref().unwrap());
    assert_eq!(top.len(), REPORT_LIMIT);
    for pair in top.windows(2) {
        assert!(pair[0] > pair[1]);
    }
    assert_eq!(top[0], (20, 0));
}
