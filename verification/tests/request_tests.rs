use ghclient::request::{
    build_request, members_url, page_url_of, probe_url_of, status_is_success, user_repos_url,
    HttpMethod,
};
use ghclient::text::usize_to_string;

#[test]
fn endpoint_urls_are_exact() {
    assert_eq!(members_url("acme"), "https://api.github.com/orgs/acme/members");
    assert_eq!(user_repos_url("maiksensi"), "https://api.github.com/users/maiksensi/repos");
    assert_eq!(
        probe_url_of("https://api.github.com/orgs/acme/members"),
        "https://api.github.com/orgs/acme/members?per_page=30"
    );
    assert_eq!(
        page_url_of("https://api.github.com/orgs/acme/members", 17),
        "https://api.github.com/orgs/acme/members?per_page=30&page=17"
    );
}

#[test]
fn decimal_rendering_is_exact() {
    assert_eq!(usize_to_string(0), "0");
    assert_eq!(usize_to_string(7), "7");
    assert_eq!(usize_to_string(30), "30");
    assert_eq!(usize_to_string(10203), "10203");
    assert_eq!(usize_to_string(usize::MAX), usize::MAX.to_string());
}

#[test]
fn every_request_carries_the_fixed_headers() {
    let r = build_request(HttpMethod::Get, "https://x/y".to_string(), None);
    assert_eq!(r.method, HttpMethod::Get);
    assert_eq!(r.url, "https://x/y");
    assert_eq!(r.headers.len(), 2);
    assert_eq!(r.headers[0], ("Accept".to_string(), "application/vnd.github.v3+json".to_string()));
    assert_eq!(r.headers[1], ("User-Agent".to_string(), "Awesome-Octocat-App".to_string()));
}

#[test]
fn a_token_becomes_a_bearer_header() {
    let token = "SECRET-REDACTED".to_string();
    let r = build_request(HttpMethod::Head, "https://x/y".to_string(), Some(&token));
    assert_eq!(r.method, HttpMethod::Head);
    assert_eq!(r.headers.len(), 3);
    assert_eq!(
        r.headers[2],
        ("Authorization".to_string(), "Bearer SECRET-REDACTED".to_string())
    );
}

#[test]
fn only_the_two_hundreds_are_success() {
    assert!(status_is_success(200));
    assert!(status_is_success(204));
    assert!(status_is_success(299));
    assert!(!status_is_success(199));
    assert!(!status_is_success(300));
    assert!(!status_is_success(304));
    assert!(!status_is_success(404));
    assert!(!status_is_success(500));
}
