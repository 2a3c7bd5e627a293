use hpp_editor::hat_name_getter::{HatNameGetter, HatNameGetterAction};
use hpp_editor::name_getter::{NameGetter, NameGetterResult};

#[test]
fn name_getter_hands_back_the_name_and_the_value() {
    let mut getter: NameGetter<u8> = NameGetter::new();
    assert!(!getter.is_open());
    assert!(getter.update(true, true).is_none());
    getter.open("Name of the hat".to_string(), 7);
    assert!(getter.is_open());
    assert_eq!(getter.message(), Some("Name of the hat"));
    assert_eq!(getter.buffer(), Some(""));
    assert!(getter.update(false, false).is_none());
    getter.set_buffer("top hat".to_string());
    assert_eq!(getter.buffer(), Some("top hat"));
    match getter.update(false, true) {
        Some(NameGetterResult::Confirmed(name, value)) => {
            assert_eq!(name, "top hat");
            assert_eq!(value, 7);
        }
        _ => panic!("the name was not confirmed"),
    }
    assert!(!getter.is_open());
    assert_eq!(getter.buffer(), None);
}

#[test]
fn name_getter_can_be_dismissed() {
    let mut getter: NameGetter<&str> = NameGetter::default();
    getter.open("first".to_string(), "a");
    getter.open("second".to_string(), "b");
    assert_eq!(getter.message(), Some("first"));
    match getter.update(true, true) {
        Some(NameGetterResult::Closed) => {}
        _ => panic!("the dialog was not dismissed"),
    }
    assert!(!getter.is_open());
    getter.set_buffer("ignored".to_string());
    assert!(!getter.is_open());
}

#[test]
fn hat_name_getter_closes_on_its_buttons() {
    let mut getter = HatNameGetter::new();
    assert_eq!(getter.action(), None);
    getter.update(true, true, true);
    assert_eq!(getter.action(), None);
    getter.open(HatNameGetterAction::SetName);
    getter.open(HatNameGetterAction::SetNameAndSave);
    assert_eq!(getter.action(), Some(HatNameGetterAction::SetName));
    assert!(getter.shown(true));
    assert!(!getter.shown(false));
    getter.update(false, true, true);
    assert_eq!(getter.action(), Some(HatNameGetterAction::SetName));
    getter.update(true, false, false);
    assert_eq!(getter.action(), Some(HatNameGetterAction::SetName));
    getter.update(true, false, true);
    assert_eq!(getter.action(), None);
    getter.open(HatNameGetterAction::SetNameAndSave);
    getter.update(true, true, true);
    assert_eq!(HatNameGetter::default().action(), None);
    assert_eq!(getter.action(), None);
}
