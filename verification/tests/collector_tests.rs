use ghclient::collector::{PageCollector, settle_user_results};
use ghclient::errors::ClientError;
use ghclient::records::{GHRepository, GHUser};
use ghclient::request::{members_url, user_repos_url, HttpMethod, page_outcome};

fn user(login: &str, id: usize) -> GHUser {
    GHUser {
        login: login.to_string(),
        id,
        repos_url: format!("https://api.github.com/users/{login}/repos"),
        avatar_url: format!("https://example.org/{login}.png"),
    }
}

fn repo(name: &str, language: Option<&str>) -> GHRepository {
    GHRepository { name: name.to_string(), language: language.map(|l| l.to_string()) }
}

#[test]
fn members_probe_without_link_header_fetches_exactly_page_one() {
    // org "acme": the HEAD probe reports no link header, so exactly one
    // GET goes out, to page 1 of the members endpoint
    let mut coll: PageCollector<GHUser> = PageCollector::new(members_url("acme"), None);
    let probe = coll.probe_request();
    assert_eq!(probe.method, HttpMethod::Head);
    assert_eq!(probe.url, "https://api.github.com/orgs/acme/members?per_page=30");

    assert_eq!(coll.on_probe(None), Ok(()));
    let mut gets: Vec<String> = Vec::new();
    while coll.next_page().is_some() {
        let req = coll.page_request();
        assert_eq!(req.method, HttpMethod::Get);
        gets.push(req.url.clone());
        coll.on_page(vec![user("a", 1), user("b", 2)]);
    }
    assert_eq!(gets, vec![
        "https://api.github.com/orgs/acme/members?per_page=30&page=1".to_string()
    ]);
    assert!(coll.is_done());
    let records = coll.take_records();
    assert_eq!(records.len(), 2);
    assert_eq!(records[0].login, "a");
    assert_eq!(records[1].login, "b");
}

#[test]
fn single_page_repository_list_needs_no_extra_fetch() {
    // a user whose repository list fits one page: link header absent,
    // exactly that page's contents come back
    let mut coll: PageCollector<GHRepository> =
        PageCollector::new(user_repos_url("maiksensi"), None);
    let probe = coll.probe_request();
    assert_eq!(probe.url, "https://api.github.com/users/maiksensi/repos?per_page=30");
    assert_eq!(coll.on_probe(None), Ok(()));

    let page = vec![repo("one", Some("Rust")), repo("two", None)];
    let mut fetches = 0;
    while coll.next_page().is_some() {
        coll.page_request();
        fetches += 1;
        coll.on_page(page.clone());
    }
    assert_eq!(fetches, 1);
    assert!(coll.is_done());
    assert_eq!(coll.take_records(), page);
}

#[test]
fn three_pages_are_fetched_in_order_and_concatenated() {
    let header = "<https://api.github.com/users/jonashackt/repos?per_page=30&page=2>; rel=\"next\", \
                  <https://api.github.com/users/jonashackt/repos?per_page=30&page=3>; rel=\"last\"";
    let mut coll: PageCollector<GHRepository> =
        PageCollector::new(user_repos_url("jonashackt"), None);
    coll.probe_request();
    assert_eq!(coll.on_probe(Some(header)), Ok(()));

    let pages = vec![
        vec![repo("p1a", Some("Rust")), repo("p1b", None)],
        vec![repo("p2a", Some("Go"))],
        vec![repo("p3a", None), repo("p3b", Some("Rust")), repo("p3c", None)],
    ];
    let mut urls: Vec<String> = Vec::new();
    let mut k = 0;
    while let Some(page_no) = coll.next_page() {
        assert_eq!(page_no, k + 1);
        urls.push(coll.page_request().url.clone());
        coll.on_page(pages[k].clone());
        k += 1;
    }
    assert_eq!(k, 3);
    assert_eq!(urls, vec![
        "https://api.github.com/users/jonashackt/repos?per_page=30&page=1".to_string(),
        "https://api.github.com/users/jonashackt/repos?per_page=30&page=2".to_string(),
        "https://api.github.com/users/jonashackt/repos?per_page=30&page=3".to_string(),
    ]);
    let mut expected: Vec<GHRepository> = Vec::new();
    for p in &pages {
        expected.extend(p.iter().cloned());
    }
    assert_eq!(coll.take_records(), expected);
}

#[test]
fn zero_page_header_still_fetches_page_one() {
    // a header whose only token says page 0 resolves to one page, so
    // page 1 is requested exactly once
    let mut coll: PageCollector<GHUser> = PageCollector::new(members_url("acme"), None);
    coll.probe_request();
    assert_eq!(coll.on_probe(Some("<https://x/r?per_page=30&page=0>; rel=\"last\"")), Ok(()));
    let mut fetched = 0;
    while coll.next_page().is_some() {
        let req = coll.page_request();
        assert_eq!(req.url, "https://api.github.com/orgs/acme/members?per_page=30&page=1");
        fetched += 1;
        coll.on_page(vec![user("a", 1)]);
    }
    assert_eq!(fetched, 1);
    assert!(coll.is_done());
}

#[test]
fn unparsable_probe_header_aborts_the_resource() {
    let mut coll: PageCollector<GHUser> = PageCollector::new(members_url("acme"), None);
    coll.probe_request();
    assert_eq!(
        coll.on_probe(Some("<https://x/r?per_page=30>; rel=\"last\"")),
        Err(ClientError::PaginationParse)
    );
}

#[test]
fn page_outcome_decides_status_and_decode() {
    assert_eq!(page_outcome(200, Some(vec![1u32, 2, 3])), Ok(vec![1u32, 2, 3]));
    assert_eq!(page_outcome(204, Some(Vec::<u32>::new())), Ok(Vec::new()));
    assert_eq!(page_outcome(404, Some(vec![1u32])), Err(ClientError::HttpStatus(404)));
    assert_eq!(page_outcome::<u32>(500, None), Err(ClientError::HttpStatus(500)));
    assert_eq!(page_outcome::<u32>(200, None), Err(ClientError::Decode));
}

#[test]
fn failed_user_is_dropped_with_one_warning() {
    // three users; B's repository fetch fails with a server error
    let results = vec![
        (user("A", 1), Ok(vec![repo("ra", Some("Rust"))])),
        (user("B", 2), Err(ClientError::HttpStatus(500))),
        (user("C", 3), Ok(vec![repo("rc", None)])),
    ];
    let (kept, warnings) = settle_user_results(results);
    assert_eq!(kept.len(), 2);
    assert_eq!(kept[0].0.login, "A");
    assert_eq!(kept[0].1, vec![repo("ra", Some("Rust"))]);
    assert_eq!(kept[1].0.login, "C");
    assert_eq!(kept[1].1, vec![repo("rc", None)]);
    assert_eq!(warnings, vec!["B".to_string()]);
}

#[test]
fn all_users_kept_when_nothing_fails() {
    let results = vec![
        (user("A", 1), Ok(vec![])),
        (user("B", 2), Ok(vec![repo("r", None)])),
    ];
    let (kept, warnings) = settle_user_results(results);
    assert_eq!(kept.len(), 2);
    assert!(warnings.is_empty());
}
