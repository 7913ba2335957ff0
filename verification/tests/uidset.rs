use mail_intake::decimal::{decimal_string, push_decimal};
use mail_intake::uidset::create_uidset;
use std::collections::HashSet;

fn reparse(text: &str) -> Vec<u32> {
    if text.is_empty() {
        return Vec::new();
    }
    text.split(',').map(|item| item.parse::<u32>().unwrap()).collect()
}

#[test]
fn decimal_string_of_small_and_large_numbers() {
    assert_eq!(decimal_string(0), "0");
    assert_eq!(decimal_string(7), "7");
    assert_eq!(decimal_string(10), "10");
    assert_eq!(decimal_string(909), "909");
    assert_eq!(decimal_string(4294967295), "4294967295");
    assert_eq!(decimal_string(u64::MAX), "18446744073709551615");
}

#[test]
fn push_decimal_appends_to_what_is_there() {
    let mut text = String::from("uid ");
    push_decimal(&mut text, 42);
    assert_eq!(text, "uid 42");
    push_decimal(&mut text, 0);
    assert_eq!(text, "uid 420");
}

#[test]
fn empty_set_serializes_to_empty_string() {
    let uids: HashSet<u32> = HashSet::new();
    assert_eq!(create_uidset(&uids), "");
}

#[test]
fn single_identifier_has_no_separator() {
    let uids: HashSet<u32> = [17].into_iter().collect();
    assert_eq!(create_uidset(&uids), "17");
}

#[test]
fn serialized_set_reparses_to_the_same_set() {
    let uids: HashSet<u32> = [3, 17, 0, 4294967295, 100, 101].into_iter().collect();
    let text = create_uidset(&uids);
    assert!(!text.starts_with(','));
    assert!(!text.ends_with(','));
    assert!(!text.contains(",,"));
    let items = reparse(&text);
    assert_eq!(items.len(), uids.len());
    let back: HashSet<u32> = items.into_iter().collect();
    assert_eq!(back, uids);
}

#[test]
fn every_identifier_is_written_once() {
    let uids: HashSet<u32> = (1..=250).collect();
    let text = create_uidset(&uids);
    let items = reparse(&text);
    assert_eq!(items.len(), 250);
    let back: HashSet<u32> = items.into_iter().collect();
    assert_eq!(back, uids);
}
