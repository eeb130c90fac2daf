//! The store operations on concrete data: create, list, remove,
//! lookup, and the deduplication rule on token collisions.

use alias_store::Alias;
use alias_store::AliasStore;
use alias_store::CreateError;

fn s(x: &str) -> String {
    String::from(x)
}

#[test]
fn creates_with_distinct_tokens_store_each_once() {
    let mut store = AliasStore::new();
    store.create_alias(s("https://one.example"), Some(s("one")), None).unwrap();
    store.create_alias(s("https://two.example"), Some(s("two")), None).unwrap();
    store.create_alias(s("https://three.example"), Some(s("three")), None).unwrap();
    let listed = store.list();
    assert_eq!(listed.len(), 3);
    assert_eq!(listed[0].token, "one");
    assert_eq!(listed[0].target, "https://one.example");
    assert_eq!(listed[1].token, "two");
    assert_eq!(listed[1].target, "https://two.example");
    assert_eq!(listed[2].token, "three");
    assert_eq!(listed[2].target, "https://three.example");
}

#[test]
fn create_returns_the_record_as_supplied() {
    let mut store = AliasStore::new();
    let alias = store.create_alias(s("https://example.com"), Some(s("abc")), None).unwrap();
    assert_eq!(alias.token, "abc");
    assert_eq!(alias.target, "https://example.com");
    assert_eq!(alias.interstitial, None);
}

#[test]
fn create_rejects_token_with_question_mark() {
    let mut store = AliasStore::new();
    let r = store.create_alias(s("https://example.com"), Some(s("a?b")), None);
    assert_eq!(r.unwrap_err(), CreateError::InvalidToken);
    assert_eq!(store.len(), 0);
}

#[test]
fn create_rejects_token_that_is_only_question_mark() {
    let mut store = AliasStore::new();
    let r = store.create_alias(s("https://example.com"), Some(s("?")), None);
    assert_eq!(r.unwrap_err(), CreateError::InvalidToken);
}

#[test]
fn collision_with_explicit_token_keeps_the_pre_existing_record() {
    let mut store = AliasStore::new();
    store.create_alias(s("https://first.example"), Some(s("dup")), None).unwrap();
    let second = store.create_alias(s("https://second.example"), Some(s("dup")), None).unwrap();
    assert_eq!(second.target, "https://second.example");
    let listed = store.list();
    assert_eq!(listed.len(), 1);
    assert_eq!(listed[0].token, "dup");
    assert_eq!(listed[0].target, "https://first.example");
}

#[test]
fn two_serialized_creates_same_token_leave_one_record() {
    let mut store = AliasStore::new();
    store.create_alias(s("https://left.example"), Some(s("race")), None).unwrap();
    store.create_alias(s("https://right.example"), Some(s("race")), None).unwrap();
    let matching: Vec<&Alias> =
        store.list().iter().filter(|a| a.token == "race").collect();
    assert_eq!(matching.len(), 1);
    assert_eq!(matching[0].target, "https://left.example");
}

#[test]
fn remove_returns_removed_records_and_second_remove_returns_nothing() {
    let mut store = AliasStore::new();
    store.create_alias(s("https://example.com"), Some(s("abc")), None).unwrap();
    store.create_alias(s("https://other.example"), Some(s("xyz")), None).unwrap();
    let removed = store.remove_alias(&s("abc"));
    assert_eq!(removed.len(), 1);
    assert_eq!(removed[0].token, "abc");
    assert_eq!(removed[0].target, "https://example.com");
    let removed_again = store.remove_alias(&s("abc"));
    assert!(removed_again.is_empty());
    assert_eq!(store.len(), 1);
    assert_eq!(store.list()[0].token, "xyz");
}

#[test]
fn remove_of_legacy_duplicates_removes_all_in_reverse_order() {
    let loaded = vec![
        Alias::new(s("old"), s("https://old.example"), None),
        Alias::new(s("keep"), s("https://keep.example"), None),
        Alias::new(s("old"), s("https://newer.example"), None),
    ];
    let mut store = AliasStore::from_loaded(loaded);
    let removed = store.remove_alias(&s("old"));
    assert_eq!(removed.len(), 2);
    assert_eq!(removed[0].target, "https://newer.example");
    assert_eq!(removed[1].target, "https://old.example");
    assert_eq!(store.len(), 1);
    assert_eq!(store.list()[0].token, "keep");
}

#[test]
fn remove_of_absent_token_removes_nothing() {
    let mut store = AliasStore::new();
    store.create_alias(s("https://example.com"), Some(s("abc")), None).unwrap();
    let removed = store.remove_alias(&s("missing"));
    assert!(removed.is_empty());
    assert_eq!(store.len(), 1);
}

#[test]
fn end_to_end_create_lookup_remove() {
    let mut store = AliasStore::new();
    let alias = store.create_alias(s("https://example.com"), Some(s("abc")), None).unwrap();
    assert_eq!(alias.token, "abc");
    assert_eq!(alias.target, "https://example.com");
    let found = store.lookup_for_redirect("abc").unwrap();
    assert_eq!(found.target, "https://example.com");
    let removed = store.remove_alias(&s("abc"));
    assert_eq!(removed.len(), 1);
    assert_eq!(removed[0].token, "abc");
    assert!(store.lookup_for_redirect("abc").is_none());
}

#[test]
fn loaded_legacy_duplicates_are_kept_until_next_create() {
    let loaded = vec![
        Alias::new(s("dup"), s("https://first.example"), None),
        Alias::new(s("dup"), s("https://second.example"), None),
    ];
    let mut store = AliasStore::from_loaded(loaded);
    assert_eq!(store.len(), 2);
    store.create_alias(s("https://fresh.example"), Some(s("fresh")), None).unwrap();
    let listed = store.list();
    assert_eq!(listed.len(), 2);
    assert_eq!(listed[0].token, "dup");
    assert_eq!(listed[0].target, "https://first.example");
    assert_eq!(listed[1].token, "fresh");
}
