use re0inv::config::Config;
use re0inv::game::{Build, SUPPORTED};
use re0inv::startup::{plan_startup, BuildNote};

fn supported() -> Build {
    Build { stamp: SUPPORTED.to_string() }
}

#[test]
fn a_configuration_that_switches_the_mod_off_plans_nothing() {
    let config = Config::from_text("[General]\nMod=0\nItemBox=1\n");
    assert!(plan_startup(&config, Some(&supported())).is_none());
}

#[test]
fn the_verified_build_gets_everything_asked_for() {
    let config = Config::from_text("Slots=20\nItemBox=1\nBoxSlots=32\nSkipDoors=1\nShortenFades=0\n");
    let plan = plan_startup(&config, Some(&supported())).unwrap();
    assert_eq!(plan.capacity, 20);
    assert_eq!(plan.build, BuildNote::Supported);
    assert!(plan.addresses.is_some());
    assert_eq!(plan.item_box, Some(32));
    assert!(plan.build_archives);
    assert_eq!(plan.doors, Some(false));
    assert!(!plan.doors_unavailable);
}

#[test]
fn another_build_is_never_patched() {
    let config = Config::from_text("ItemBox=1\nSkipDoors=1\n");
    let other = Build { stamp: "MasterRelease Feb 01 2025".to_string() };
    let plan = plan_startup(&config, Some(&other)).unwrap();
    assert_eq!(plan.build, BuildNote::Unexpected);
    assert!(plan.addresses.is_none());
    assert_eq!(plan.item_box, None);
    assert_eq!(plan.doors, None);
    assert!(plan.doors_unavailable);
    let unknown = plan_startup(&config, None).unwrap();
    assert_eq!(unknown.build, BuildNote::Unknown);
    assert!(unknown.addresses.is_none());
}

#[test]
fn nothing_asked_for_installs_no_feature() {
    let config = Config::from_text("");
    let plan = plan_startup(&config, Some(&supported())).unwrap();
    assert_eq!(plan.item_box, None);
    assert!(!plan.build_archives);
    assert_eq!(plan.doors, None);
    assert!(!plan.doors_unavailable);
}
