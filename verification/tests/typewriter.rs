use re0inv::typewriter::{asks, translated, with_ribbon, without_ribbon};

const STATEMENT: &str =
    "\r\n<CNTR>There is a typewriter.<PAGE>\r\nIf you have an ink ribbon.\r\nyou can save your data.";

#[test]
fn a_translated_language_gets_its_own_sentence() {
    let patched = without_ribbon(STATEMENT, "eng").unwrap();
    assert!(patched.starts_with(STATEMENT));
    assert!(patched.ends_with("Use the item box?\r\n<SEL Yes_No>"));
    assert!(asks(&patched));
}

#[test]
fn every_other_language_gets_the_english_sentence() {
    let english = without_ribbon(STATEMENT, "eng").unwrap();
    for language in ["spa", "jpn", "chS", "xyz"] {
        assert_eq!(without_ribbon(STATEMENT, language).unwrap(), english);
    }
}

#[test]
fn a_message_that_already_asks_is_left_alone() {
    assert!(without_ribbon("...<SEL Yes_No>", "spa").is_none());
    assert!(!asks(STATEMENT));
}

#[test]
fn the_ribbon_prompt_gains_a_third_choice_once() {
    let prompt = "...There is a typewriter.<PAGE>Record data?<SEL Yes_No>";
    let patched = with_ribbon(prompt).unwrap();
    assert_eq!(patched, "...There is a typewriter.<PAGE>Record data?<SEL Yes_No_Use>");
    assert!(with_ribbon(&patched).is_none());
    assert!(with_ribbon("no selection here").is_none());
}

#[test]
fn only_english_has_its_own_sentence() {
    assert!(translated("eng"));
    assert!(!translated("spa"));
    assert!(!translated("en"));
}
