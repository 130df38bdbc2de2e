//! Method calls and their flags.

use zlink::call::{flag_key, flag_of_key, CallFlag};
use zlink::Call;

#[derive(Debug, Clone, PartialEq)]
struct Ping {
    message: String,
}

#[test]
fn new_call_has_no_flags() {
    let call = Call::new(Ping { message: "hi".to_string() });
    assert_eq!(call.method().message, "hi");
    assert!(!call.oneway());
    assert!(!call.more());
    assert!(!call.upgrade());
    assert!(call.set_flags().is_empty());
}

#[test]
fn flags_are_set_one_by_one() {
    let call = Call::new(1u32).set_oneway(true).set_upgrade(true);
    assert!(call.oneway());
    assert!(!call.more());
    assert!(call.upgrade());
    assert_eq!(call.set_flags(), vec![CallFlag::Oneway, CallFlag::Upgrade]);
    let call = call.set_oneway(false).set_more(true);
    assert_eq!(call.set_flags(), vec![CallFlag::More, CallFlag::Upgrade]);
    let call = call.set_flag(CallFlag::Upgrade, false);
    assert_eq!(call.set_flags(), vec![CallFlag::More]);
}

#[test]
fn call_from_method() {
    let call: Call<&str> = Call::from("org.example.Ping");
    assert_eq!(*call.method(), "org.example.Ping");
    assert!(!call.more());
    assert_eq!(call.into_method(), "org.example.Ping");
}

#[test]
fn flag_keys() {
    assert_eq!(flag_key(CallFlag::Oneway), "oneway");
    assert_eq!(flag_key(CallFlag::More), "more");
    assert_eq!(flag_key(CallFlag::Upgrade), "upgrade");
    assert_eq!(flag_of_key("more"), Some(CallFlag::More));
    assert_eq!(flag_of_key("oneway"), Some(CallFlag::Oneway));
    assert_eq!(flag_of_key("upgrade"), Some(CallFlag::Upgrade));
    assert_eq!(flag_of_key("method"), None);
    assert_eq!(flag_of_key("parameters"), None);
}

#[test]
fn flag_entries_last_value_wins() {
    let entries = [
        (CallFlag::Oneway, true),
        (CallFlag::More, true),
        (CallFlag::Oneway, false),
    ];
    let call = Call::from_flag_entries("m", &entries);
    assert_eq!(*call.method(), "m");
    assert!(!call.oneway());
    assert!(call.more());
    assert!(!call.upgrade());
}

#[test]
fn flag_entries_absent_flags_are_unset() {
    let call = Call::from_flag_entries(7u8, &[]);
    assert_eq!(*call.method(), 7);
    assert!(!call.oneway());
    assert!(!call.more());
    assert!(!call.upgrade());
}

#[test]
fn flags_read_back_from_written_entries() {
    let call = Call::new("m").set_oneway(true).set_upgrade(true);
    let entries: Vec<(CallFlag, bool)> = call.set_flags().into_iter().map(|f| (f, true)).collect();
    let back = Call::from_flag_entries("m", &entries);
    assert_eq!(back.oneway(), call.oneway());
    assert_eq!(back.more(), call.more());
    assert_eq!(back.upgrade(), call.upgrade());
}
