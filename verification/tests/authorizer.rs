//! The access authorizer and the small request-field helpers.

use alias_store::AuthError;
use alias_store::access_key_required;
use alias_store::check_access_key;
use alias_store::parse_interstitial_flag;
use alias_store::split_lines;

fn s(x: &str) -> String {
    String::from(x)
}

#[test]
fn listed_key_is_accepted() {
    let keys = "abc\ndef";
    assert_eq!(check_access_key(keys, true, Some(&s("abc"))), Ok(()));
    assert_eq!(check_access_key(keys, true, Some(&s("def"))), Ok(()));
}

#[test]
fn unlisted_key_is_refused() {
    let keys = "abc\ndef";
    assert_eq!(check_access_key(keys, true, Some(&s("xyz"))), Err(AuthError::InvalidKey));
    assert_eq!(check_access_key(keys, true, Some(&s("ab"))), Err(AuthError::InvalidKey));
}

#[test]
fn missing_key_is_refused_only_when_required() {
    let keys = "abc\ndef";
    assert_eq!(check_access_key(keys, true, None), Err(AuthError::KeyRequired));
    assert_eq!(check_access_key(keys, false, None), Ok(()));
}

#[test]
fn key_requirement_follows_the_resource() {
    assert!(!access_key_required(&None));
    assert!(!access_key_required(&Some(s(""))));
    assert!(access_key_required(&Some(s("abc\ndef"))));
}

#[test]
fn lines_split_at_every_newline() {
    let lines = split_lines("abc");
    assert_eq!(lines, vec![s("abc")]);
    let lines = split_lines("a\nb\n");
    assert_eq!(lines, vec![s("a"), s("b"), s("")]);
    let lines = split_lines("");
    assert_eq!(lines, vec![s("")]);
    let lines = split_lines("a\n\nb");
    assert_eq!(lines, vec![s("a"), s(""), s("b")]);
    let lines = split_lines("\n");
    assert_eq!(lines, vec![s(""), s("")]);
}

#[test]
fn interstitial_flag_accepts_only_the_word_true() {
    assert_eq!(parse_interstitial_flag(Some(&s("true"))), Some(true));
    assert_eq!(parse_interstitial_flag(Some(&s("TRUE"))), Some(true));
    assert_eq!(parse_interstitial_flag(Some(&s("True"))), Some(true));
    assert_eq!(parse_interstitial_flag(Some(&s("false"))), None);
    assert_eq!(parse_interstitial_flag(Some(&s("yes"))), None);
    assert_eq!(parse_interstitial_flag(Some(&s(""))), None);
    assert_eq!(parse_interstitial_flag(None), None);
}
