use ghclient::errors::ClientError;
use ghclient::pagination::last_page_from_header;

#[test]
fn absent_header_means_single_page() {
    assert_eq!(last_page_from_header(None), Ok(1));
}

#[test]
fn rel_last_entry_gives_page_count() {
    let h = "<https://api.github.com/orgs/acme/members?per_page=30&page=2>; rel=\"next\", \
             <https://api.github.com/orgs/acme/members?per_page=30&page=14>; rel=\"last\"";
    assert_eq!(last_page_from_header(Some(h)), Ok(14));
}

#[test]
fn token_order_does_not_matter() {
    let reversed = "<https://x/r?per_page=30&page=14>; rel=\"last\", \
                    <https://x/r?per_page=30&page=2>; rel=\"next\"";
    assert_eq!(last_page_from_header(Some(reversed)), Ok(14));
    let shuffled = "<https://x/r?a=1&page=7>; rel=\"prev\", <https://x/r?a=1&page=12>; rel=\"last\", \
                    <https://x/r?a=1&page=3>; rel=\"next\"";
    assert_eq!(last_page_from_header(Some(shuffled)), Ok(12));
}

#[test]
fn surrounding_whitespace_is_tolerated() {
    let h = "  <https://x/r?per_page=30&page=4> ;  rel=\"next\" ,  <https://x/r?per_page=30&page=9> ; rel=\"last\"  ";
    assert_eq!(last_page_from_header(Some(h)), Ok(9));
}

#[test]
fn per_page_parameter_is_not_a_page_token() {
    // only `&page=` introduces a token, so the page size of 30 never wins
    let h = "<https://x/r?q=1&per_page=30&page=5>; rel=\"last\"";
    assert_eq!(last_page_from_header(Some(h)), Ok(5));
}

#[test]
fn header_without_token_is_a_parse_error() {
    assert_eq!(
        last_page_from_header(Some("<https://x/r?per_page=30>; rel=\"last\"")),
        Err(ClientError::PaginationParse)
    );
    assert_eq!(last_page_from_header(Some("")), Err(ClientError::PaginationParse));
    assert_eq!(last_page_from_header(Some("&page=x")), Err(ClientError::PaginationParse));
}

#[test]
fn oversized_page_number_is_a_parse_error() {
    let h = "<https://x/r?per_page=30&page=99999999999999999999999999>; rel=\"last\"";
    assert_eq!(last_page_from_header(Some(h)), Err(ClientError::PaginationParse));
}

#[test]
fn bare_token_is_enough() {
    assert_eq!(last_page_from_header(Some("&page=3")), Ok(3));
}

#[test]
fn page_parameter_may_open_the_query_string() {
    // `page` introduced by `?` is as much a query parameter as one
    // introduced by `&`
    assert_eq!(
        last_page_from_header(Some("<https://api.github.com/orgs/acme/members?page=2>; rel=\"last\"")),
        Ok(2)
    );
    assert_eq!(
        last_page_from_header(Some("<https://x/r?page=2>; rel=\"next\", <https://x/r?page=8>; rel=\"last\"")),
        Ok(8)
    );
}

#[test]
fn page_needs_a_query_separator_before_it() {
    // without `?` or `&` in front, `page=` is not a query parameter
    assert_eq!(last_page_from_header(Some("page=9")), Err(ClientError::PaginationParse));
    assert_eq!(last_page_from_header(Some("xpage=9")), Err(ClientError::PaginationParse));
}

#[test]
fn page_count_is_never_below_one() {
    // page 1 is always fetched, so a header announcing only page 0
    // still resolves to one page
    assert_eq!(last_page_from_header(Some("&page=0")), Ok(1));
    assert_eq!(last_page_from_header(Some("<https://x/r?a=1&page=0>; rel=\"last\", <https://x/r?a=1&page=0>; rel=\"next\"")), Ok(1));
    // a positive token still wins over the floor of 1
    assert_eq!(last_page_from_header(Some("&page=0&page=3")), Ok(3));
}
