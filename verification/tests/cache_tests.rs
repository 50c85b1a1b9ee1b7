use ghclient::cache::{get_or_fetch, persist_outcome, Store};
use ghclient::errors::ClientError;
use ghclient::records::{CachedBundle, GHRepository, GHUser, language_count};

fn sample_bundle() -> CachedBundle {
    CachedBundle::new(vec![(
        GHUser {
            login: "a".to_string(),
            id: 1,
            repos_url: "u".to_string(),
            avatar_url: "v".to_string(),
        },
        vec![GHRepository { name: "r".to_string(), language: Some("Rust".to_string()) }],
    )])
}

#[test]
fn second_call_hits_the_cache_and_fetches_nothing() {
    let mut store = Store::new();
    let key = "gh-frontend-app-user-repositories".to_string();

    let first = get_or_fetch(&mut store, &key, || Ok(sample_bundle()));
    assert_eq!(first, Ok(sample_bundle()));

    // with no intervening store mutation, the producer must not run again
    let second = get_or_fetch(&mut store, &key, || -> Result<CachedBundle, ClientError> {
        panic!("the cache was bypassed: network would be touched twice");
    });
    assert_eq!(second, Ok(sample_bundle()));
    assert_eq!(first, second);
}

#[test]
fn corrupt_payload_is_reported_not_refetched() {
    let mut store = Store::new();
    let key = "k".to_string();
    store.set(&key, "definitely not a bundle".to_string());
    let r = get_or_fetch(&mut store, &key, || -> Result<CachedBundle, ClientError> {
        panic!("a corrupt payload must not fall back to the network");
    });
    assert_eq!(r, Err(ClientError::CacheCorrupt));
}

#[test]
fn producer_error_passes_through_and_persists_nothing() {
    let mut store = Store::new();
    let key = "k".to_string();
    let r = get_or_fetch(&mut store, &key, || Err(ClientError::HttpStatus(500)));
    assert_eq!(r, Err(ClientError::HttpStatus(500)));
    assert_eq!(store.get(&key), None);
}

#[test]
fn rejected_write_is_reported_but_never_discards_the_bundle() {
    let (bundle, warning) = persist_outcome(sample_bundle(), false);
    assert_eq!(bundle, sample_bundle());
    assert_eq!(warning, Some(ClientError::CachePersist));

    let (bundle, warning) = persist_outcome(sample_bundle(), true);
    assert_eq!(bundle, sample_bundle());
    assert_eq!(warning, None);
}

#[test]
fn set_then_get_returns_the_newest_value() {
    let mut store = Store::new();
    let key = "token".to_string();
    assert_eq!(store.get(&key), None);
    store.set(&key, "SECRET-REDACTED".to_string());
    assert_eq!(store.get(&key), Some("SECRET-REDACTED".to_string()));
    store.set(&key, "second".to_string());
    assert_eq!(store.get(&key), Some("second".to_string()));
    assert_eq!(store.get(&"other".to_string()), None);
}

#[test]
fn language_counts_are_exact_and_positive() {
    let repos = vec![
        GHRepository { name: "a".to_string(), language: Some("Rust".to_string()) },
        GHRepository { name: "b".to_string(), language: None },
        GHRepository { name: "c".to_string(), language: Some("Go".to_string()) },
        GHRepository { name: "d".to_string(), language: Some("Rust".to_string()) },
    ];
    let counts = language_count(repos);
    assert_eq!(counts.len(), 2);
    assert!(counts.contains(&("Rust".to_string(), 2)));
    assert!(counts.contains(&("Go".to_string(), 1)));
}

#[test]
fn language_count_of_unlabelled_repositories_is_empty() {
    let repos = vec![
        GHRepository { name: "a".to_string(), language: None },
        GHRepository { name: "b".to_string(), language: None },
    ];
    assert_eq!(language_count(repos), vec![]);
    assert_eq!(language_count(vec![]), vec![]);
}
