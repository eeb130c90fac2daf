//! Generated tokens, percent-decoding on lookup, and the redirect
//! decision.

use alias_store::Alias;
use alias_store::AliasStore;
use alias_store::RedirectAction;
use alias_store::check_token;
use alias_store::render_interstitial;

fn s(x: &str) -> String {
    String::from(x)
}

#[test]
fn token_check_refuses_a_question_mark_anywhere() {
    assert!(check_token("abc"));
    assert!(check_token(""));
    assert!(!check_token("a?c"));
    assert!(!check_token("?"));
    assert!(!check_token("abc?"));
}

#[test]
fn generated_token_is_six_alphanumeric_characters() {
    let mut store = AliasStore::new();
    let alias = store.create_alias(s("https://example.com"), None, None).unwrap();
    assert_eq!(alias.token.chars().count(), 6);
    assert!(alias.token.chars().all(|c| c.is_ascii_alphanumeric()));
}

#[test]
fn generated_tokens_do_not_collide_with_existing_ones() {
    let mut store = AliasStore::new();
    let mut tokens: Vec<String> = Vec::new();
    for i in 0..50 {
        let alias = store.create_alias(format!("https://{i}.example"), None, None).unwrap();
        assert!(!tokens.contains(&alias.token));
        tokens.push(alias.token);
    }
    assert_eq!(store.len(), 50);
}

#[test]
fn generated_token_round_trips_through_lookup() {
    let mut store = AliasStore::new();
    store.create_alias(s("https://busy.example"), Some(s("busy01")), None).unwrap();
    let alias = store.create_alias(s("https://example.com"), None, None).unwrap();
    let found = store.lookup_for_redirect(alias.token.as_str()).unwrap();
    assert_eq!(found.target, "https://example.com");
    assert_eq!(found.token, alias.token);
}

#[test]
fn lookup_percent_decodes_the_visited_token() {
    let mut store = AliasStore::new();
    store.create_alias(s("https://example.com"), Some(s("a b")), None).unwrap();
    let found = store.lookup_for_redirect("a%20b").unwrap();
    assert_eq!(found.target, "https://example.com");
    assert!(store.lookup_for_redirect("a%20c").is_none());
}

#[test]
fn lookup_in_an_empty_store_finds_nothing() {
    let store = AliasStore::new();
    assert!(store.lookup_for_redirect("anything").is_none());
    match store.redirect_decision("anything") {
        RedirectAction::NotFound => {},
        other => panic!("expected the not-found fallback, got {other:?}"),
    }
}

#[test]
fn lookup_finds_the_first_match_in_list_order() {
    let loaded = vec![
        Alias::new(s("dup"), s("https://first.example"), None),
        Alias::new(s("dup"), s("https://second.example"), None),
    ];
    let store = AliasStore::from_loaded(loaded);
    let found = store.lookup_for_redirect("dup").unwrap();
    assert_eq!(found.target, "https://first.example");
}

#[test]
fn interstitial_rendering_substitutes_every_placeholder() {
    let page = render_interstitial(
        "<a href=\"#REDIRECT#\">#REDIRECT#</a>",
        "https://example.com",
    );
    assert_eq!(page, "<a href=\"https://example.com\">https://example.com</a>");
    assert_eq!(render_interstitial("no placeholder", "x"), "no placeholder");
    assert_eq!(render_interstitial("", "x"), "");
    assert_eq!(render_interstitial("#REDIRECT", "x"), "#REDIRECT");
}

#[test]
fn redirect_decision_follows_the_interstitial_flag() {
    let mut store = AliasStore::new();
    store.create_alias(s("https://plain.example"), Some(s("plain")), None).unwrap();
    store.create_alias(s("https://paged.example"), Some(s("paged")), Some(true)).unwrap();
    match store.redirect_decision("plain") {
        RedirectAction::Redirect(target) => assert_eq!(target, "https://plain.example"),
        other => panic!("expected an immediate redirect, got {other:?}"),
    }
    match store.redirect_decision("paged") {
        RedirectAction::Interstitial(target) => assert_eq!(target, "https://paged.example"),
        other => panic!("expected the interstitial page, got {other:?}"),
    }
    match store.redirect_decision("absent") {
        RedirectAction::NotFound => {},
        other => panic!("expected the not-found fallback, got {other:?}"),
    }
}
