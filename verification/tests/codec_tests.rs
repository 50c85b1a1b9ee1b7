use ghclient::codec::{decode_bundle, encode_bundle};
use ghclient::errors::ClientError;
use ghclient::records::{CachedBundle, GHRepository, GHUser};

fn user(login: &str, id: usize) -> GHUser {
    GHUser {
        login: login.to_string(),
        id,
        repos_url: format!("https://api.github.com/users/{login}/repos"),
        avatar_url: format!("https://example.org/{login}.png"),
    }
}

fn repo(name: &str, language: Option<&str>) -> GHRepository {
    GHRepository { name: name.to_string(), language: language.map(|l| l.to_string()) }
}

#[test]
fn encode_of_small_bundle_is_exact_json() {
    let b = CachedBundle::new(vec![(
        GHUser {
            login: "a".to_string(),
            id: 7,
            repos_url: "u".to_string(),
            avatar_url: "v".to_string(),
        },
        vec![repo("r", Some("Rust"))],
    )]);
    let expected = "[[{\"login\":\"a\",\"id\":7,\"repos_url\":\"u\",\"avatar_url\":\"v\"},[{\"name\":\"r\",\"language\":\"Rust\"}]]]";
    assert_eq!(encode_bundle(&b), expected);
}

#[test]
fn encode_of_empty_bundle_is_empty_array() {
    let b = CachedBundle::new(vec![]);
    assert_eq!(encode_bundle(&b), "[]");
    assert_eq!(decode_bundle("[]"), Ok(b));
}

#[test]
fn round_trip_preserves_every_shape() {
    // a member with no repositories, a repository with an absent
    // language, and names that need escaping
    let b = CachedBundle::new(vec![
        (user("zero-repos", 1), vec![]),
        (
            user("quo\"te\\slash", 2),
            vec![repo("plain", Some("Rust")), repo("no-lang", None), repo("we\"ird\\", Some("C++"))],
        ),
        (user("third", usize::MAX), vec![repo("x", None)]),
    ]);
    let payload = encode_bundle(&b);
    assert_eq!(decode_bundle(&payload), Ok(b));
}

#[test]
fn null_language_round_trips() {
    let b = CachedBundle::new(vec![(user("u", 3), vec![repo("r", None)])]);
    let payload = encode_bundle(&b);
    assert!(payload.contains("\"language\":null"));
    assert_eq!(decode_bundle(&payload), Ok(b));
}

#[test]
fn corrupt_payloads_are_rejected() {
    for garbage in [
        "",
        "{",
        "not json at all",
        "[[",
        "[{}]",
        "[[{\"login\":\"a\"},[]]]",
        "[[{\"login\":\"a\",\"id\":7,\"repos_url\":\"u\",\"avatar_url\":\"v\"},[]]] trailing",
        "[[{\"login\":\"a\",\"id\":99999999999999999999,\"repos_url\":\"u\",\"avatar_url\":\"v\"},[]]]",
    ] {
        assert_eq!(decode_bundle(garbage), Err(ClientError::CacheCorrupt), "payload: {garbage}");
    }
}

#[test]
fn error_kinds_describe_themselves() {
    assert_eq!(
        ClientError::HttpStatus(500).describe(),
        "request failed with a non-success status"
    );
    assert_eq!(ClientError::Decode.describe(), "response body did not match the expected shape");
    assert_eq!(ClientError::PaginationParse.describe(), "could not parse pagination header");
    assert_eq!(ClientError::CacheCorrupt.describe(), "stored payload does not deserialize");
    assert_eq!(ClientError::CachePersist.describe(), "store rejected the cache write");
}
