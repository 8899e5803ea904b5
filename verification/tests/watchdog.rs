use re0inv::watchdog::{since_beat, Check, Watchdog};

#[test]
fn the_dump_comes_on_the_third_hung_check_in_a_row_and_once() {
    let mut w = Watchdog::new();
    assert!(!w.check(Check::Hung));
    assert!(!w.check(Check::Hung));
    assert!(w.check(Check::Hung));
    assert!(!w.check(Check::Hung));
    assert!(!w.check(Check::Responsive));
    assert!(!w.check(Check::Hung));
    assert!(!w.check(Check::Hung));
    assert!(!w.check(Check::Hung));
}

#[test]
fn a_responsive_window_starts_the_count_over_and_a_missing_one_does_not() {
    let mut w = Watchdog::new();
    assert!(!w.check(Check::Hung));
    assert!(!w.check(Check::Hung));
    assert!(!w.check(Check::Responsive));
    assert!(!w.check(Check::Hung));
    assert!(!w.check(Check::NoWindow));
    assert!(!w.check(Check::Hung));
    assert!(w.check(Check::Hung));
}

#[test]
fn the_input_thread_beat_reads_as_an_age() {
    assert_eq!(since_beat(0, 5000), None);
    assert_eq!(since_beat(4000, 5000), Some(1000));
    assert_eq!(since_beat(6000, 5000), Some(0));
}
