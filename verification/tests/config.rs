use re0inv::config::{Config, Level, DEFAULT_BOX_SLOTS, DEFAULT_SLOTS, MAX_SLOTS};

#[test]
fn empty_text_gives_the_defaults() {
    let c = Config::from_text("");
    assert!(c.enabled);
    assert_eq!(c.log_level, Level::Info);
    assert_eq!(c.log_path, "re0inv.log");
    assert_eq!(c.slots, DEFAULT_SLOTS);
    assert!(!c.doors.skip);
    assert!(c.doors.shorten_fades);
    assert!(!c.item_box.enabled);
    assert_eq!(c.item_box.slots, DEFAULT_BOX_SLOTS);
    assert!(!c.debug.dump_text);
    assert_eq!(c.debug.dump_path, "re0hd_text_dump.bin");
    assert!(!c.debug.probe);
    assert!(c.debug.hang_dump);
    assert_eq!(c.debug.probe_value, 0);
}

#[test]
fn settings_are_read_across_sections_and_comments() {
    let text = "[General]\r\n; a comment\r\nMod = off\r\n# another\r\nSlots=8 ; note\r\n\
                [Log]\r\nLevel= Warning \r\nPath=\r\n[ItemBox]\r\nItemBox=YES\r\nBoxSlots=30\r\n\
                [Doors]\r\nSkipDoors=1\r\nShortenFades=false\r\n[Debug]\r\nDumpText=on\r\n\
                DumpPath=out.bin\r\nProbe=true\r\nHangDump=0\r\nProbeValue=0x10";
    let c = Config::from_text(text);
    assert!(!c.enabled);
    assert_eq!(c.slots, 8);
    assert_eq!(c.log_level, Level::Warn);
    assert_eq!(c.log_path, "re0inv.log");
    assert!(c.item_box.enabled);
    assert_eq!(c.item_box.slots, 30);
    assert!(c.doors.skip);
    assert!(!c.doors.shorten_fades);
    assert!(c.debug.dump_text);
    assert_eq!(c.debug.dump_path, "out.bin");
    assert!(c.debug.probe);
    assert!(!c.debug.hang_dump);
    assert_eq!(c.debug.probe_value, 16);
}

#[test]
fn the_last_setting_of_a_key_wins_and_bad_values_keep_the_default() {
    let c = Config::from_text("slots=10\nslots=14\nmod=maybe\nboxslots=-2\nprobevalue=x");
    assert_eq!(c.slots, 14);
    assert!(c.enabled);
    assert_eq!(c.item_box.slots, DEFAULT_BOX_SLOTS);
    assert_eq!(c.debug.probe_value, 0);
}

#[test]
fn probe_values_read_decimal_negative_and_hex_bits() {
    assert_eq!(Config::from_text("probevalue=-42").debug.probe_value, -42);
    assert_eq!(Config::from_text("probevalue=+7").debug.probe_value, 7);
    assert_eq!(Config::from_text("probevalue=0XFFFFFFFF").debug.probe_value, -1);
    assert_eq!(Config::from_text("probevalue=2147483648").debug.probe_value, 0);
    assert_eq!(Config::from_text("probevalue=-2147483648").debug.probe_value, i32::MIN);
    assert_eq!(Config::from_text("probevalue=0x100000000").debug.probe_value, 0);
}

#[test]
fn level_names_are_read_in_any_case() {
    assert_eq!(Level::parse(" OFF "), Level::Off);
    assert_eq!(Level::parse("error"), Level::Error);
    assert_eq!(Level::parse("warn"), Level::Warn);
    assert_eq!(Level::parse("Debug"), Level::Debug);
    assert_eq!(Level::parse("trace"), Level::Trace);
    assert_eq!(Level::parse("loud"), Level::Info);
}

#[test]
fn sanitize_raises_small_counts_and_reports_it() {
    let mut c = Config::default();
    c.slots = 3;
    let w = c.sanitize();
    assert_eq!(c.slots, 6);
    assert_eq!(w, vec!["Slots=3 is below the stock 6; using 6.".to_string()]);
}

#[test]
fn sanitize_rounds_odd_counts_up() {
    let mut c = Config::default();
    c.slots = 9;
    let w = c.sanitize();
    assert_eq!(c.slots, 10);
    assert_eq!(w, vec!["Slots=9 is odd and would break two-slot items; using 10.".to_string()]);
}

#[test]
fn sanitize_caps_large_counts_after_rounding() {
    let mut c = Config::default();
    c.slots = 41;
    let w = c.sanitize();
    assert_eq!(c.slots, MAX_SLOTS);
    assert_eq!(
        w,
        vec![
            "Slots=41 is odd and would break two-slot items; using 42.".to_string(),
            "Slots=42 exceeds the supported maximum; using 32.".to_string(),
        ]
    );
}

#[test]
fn sanitize_leaves_a_good_count_alone() {
    let mut c = Config::default();
    let w = c.sanitize();
    assert_eq!(c.slots, DEFAULT_SLOTS);
    assert!(w.is_empty());
}

#[test]
fn a_log_writes_up_to_its_own_level_and_nothing_when_off() {
    assert!(Level::Info.writes(Level::Error));
    assert!(Level::Info.writes(Level::Info));
    assert!(!Level::Info.writes(Level::Debug));
    assert!(Level::Trace.writes(Level::Trace));
    assert!(!Level::Off.writes(Level::Error));
    assert!(!Level::Off.writes(Level::Off));
    assert_eq!(Level::Warn.tag(), "WARN");
    assert_eq!(Level::Trace.tag(), "TRACE");
    assert_eq!(Level::Off.tag(), "OFF");
}

#[test]
fn sanitize_handles_the_largest_count() {
    let mut c = Config::from_text("");
    c.slots = usize::MAX;
    let w = c.sanitize();
    assert_eq!(c.slots, MAX_SLOTS);
    assert_eq!(w.len(), 2);
    assert_eq!(
        w[0],
        format!("Slots={} is odd and would break two-slot items; using {}.", usize::MAX, usize::MAX as u128 + 1)
    );
    assert_eq!(
        w[1],
        format!("Slots={} exceeds the supported maximum; using {}.", usize::MAX as u128 + 1, MAX_SLOTS)
    );
}
