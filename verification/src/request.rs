//! Building fully-specified API requests: method, URL and headers.

use vstd::prelude::*;
use vstd::string::StringExecFns;
use crate::errors::ClientError;
use crate::text::dec_digits;
use crate::text::push_decimal;

verus! {

/// The two request methods the client uses: `Get` for page bodies, `Head`
/// for the cheap pagination probe.
#[derive(Clone, Copy, Debug, PartialEq, Eq, Structural)]
pub enum HttpMethod {
    Get,
    Head,
}

/// A fully-specified request, ready to be sent by whatever transport the
/// caller uses.
#[derive(Clone, Debug)]
pub struct ApiRequest {
    pub method: HttpMethod,
    pub url: String,
    pub headers: Vec<(String, String)>,
}

/// The view of an optional token.
pub open spec fn token_view(token: Option<String>) -> Option<Seq<char>> {
    match token {
        Some(t) => Some(t@),
        None => None,
    }
}

/// The members endpoint of an organization.
pub open spec fn members_base_url(org: Seq<char>) -> Seq<char> {
    "https://api.github.com/orgs/"@ + org + "/members"@
}

/// The repositories endpoint of a user.
pub open spec fn user_repos_base_url(user: Seq<char>) -> Seq<char> {
    "https://api.github.com/users/"@ + user + "/repos"@
}

/// The first-page form of a resource URL, used for the pagination probe.
pub open spec fn probe_url(base: Seq<char>) -> Seq<char> {
    base + "?per_page=30"@
}

/// The URL of one page of a resource.
pub open spec fn page_url(base: Seq<char>, page: nat) -> Seq<char> {
    base + "?per_page=30&page="@ + dec_digits(page)
}

/// The headers every request carries: the versioned JSON media type, the
/// fixed client name, and a bearer credential exactly when a token is
/// supplied.
pub open spec fn standard_headers(h: Seq<(String, String)>, token: Option<Seq<char>>) -> bool {
    &&& h.len() == (if token is Some {
        3int
    } else {
        2int
    })
    &&& h[0].0@ == "Accept"@
    &&& h[0].1@ == "application/vnd.github.v3+json"@
    &&& h[1].0@ == "User-Agent"@
    &&& h[1].1@ == "Awesome-Octocat-App"@
    &&& match token {
        Some(t) => h[2].0@ == "Authorization"@ && h[2].1@ == "Bearer "@ + t,
        None => true,
    }
}

/// Build a request for `url`: always the `Accept` and `User-Agent`
/// headers, and a bearer `Authorization` header exactly when `token` is
/// present.
pub fn build_request(method: HttpMethod, url: String, token: Option<&String>) -> (r: ApiRequest)
    ensures
        r.method == method,
        r.url == url,
        standard_headers(
            r.headers@,
            match token {
                Some(t) => Some(t@),
                None => None,
            },
        ),
{
    let mut headers: Vec<(String, String)> = Vec::new();
    headers.push(
        (String::from_str("Accept"), String::from_str("application/vnd.github.v3+json")),
    );
    headers.push((String::from_str("User-Agent"), String::from_str("Awesome-Octocat-App")));
    if let Some(t) = token {
        let mut bearer = String::from_str("Bearer ");
        bearer.append(t.as_str());
        headers.push((String::from_str("Authorization"), bearer));
    }
    ApiRequest { method, url, headers }
}

/// The members endpoint of the organization `org`.
pub fn members_url(org: &str) -> (r: String)
    ensures
        r@ == members_base_url(org@),
{
    let mut s = String::from_str("https://api.github.com/orgs/");
    s.append(org);
    s.append("/members");
    s
}

/// The repositories endpoint of the user `user`.
pub fn user_repos_url(user: &str) -> (r: String)
    ensures
        r@ == user_repos_base_url(user@),
{
    let mut s = String::from_str("https://api.github.com/users/");
    s.append(user);
    s.append("/repos");
    s
}

/// The probe form of a resource URL.
pub fn probe_url_of(base: &str) -> (r: String)
    ensures
        r@ == probe_url(base@),
{
    let mut s = String::from_str(base);
    s.append("?per_page=30");
    s
}

/// The URL of page `page` of a resource.
pub fn page_url_of(base: &str, page: usize) -> (r: String)
    ensures
        r@ == page_url(base@, page as nat),
{
    let mut s = String::from_str(base);
    s.append("?per_page=30&page=");
    push_decimal(&mut s, page);
    s
}

/// Is `status` a success status code?
pub fn status_is_success(status: u16) -> (r: bool)
    ensures
        r == (200 <= status < 300),
{
    200 <= status && status < 300
}

/// Decide what a page response yields: a non-success status fails with
/// that status, a body that did not decode into records fails as a
/// decode error, and otherwise the records are the page's contents.
pub fn page_outcome<T>(status: u16, decoded: Option<Vec<T>>) -> (r: Result<Vec<T>, ClientError>)
    ensures
        match r {
            Ok(v) => 200 <= status < 300 && decoded == Some(v),
            Err(e) => (!(200 <= status < 300) && e == ClientError::HttpStatus(status)) || (200
                <= status < 300 && decoded is None && e == ClientError::Decode),
        },
{
    if !status_is_success(status) {
        return Err(ClientError::HttpStatus(status));
    }
    match decoded {
        Some(v) => Ok(v),
        None => Err(ClientError::Decode),
    }
}

} // verus!
