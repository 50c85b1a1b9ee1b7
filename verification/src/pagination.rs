//! Resolving a resource's last page number from the navigation-link
//! response header.
//!
//! The header is a comma-separated list of `<url>; rel="name"` entries whose
//! exact layout differs across endpoints, so the resolver does not trust any
//! single relation entry: it scans the whole header for `page=<digits>`
//! query parameters — `page=` introduced by `?` or `&` — and takes the
//! numerically largest value found.

use vstd::prelude::*;
use crate::errors::ClientError;
use crate::text::{is_digit_char, digits_val, digit_run_end, digit_of, scan_digits};

verus! {

/// The name of the page query parameter: the characters of `page=`.
pub open spec fn page_key() -> Seq<char> {
    seq!['p', 'a', 'g', 'e', '=']
}

/// Does one of the two query-string separators stand at position `i`?
pub open spec fn is_query_separator(c: char) -> bool {
    c == '?' || c == '&'
}

/// A page-number token starts at position `i`: `page=` introduced by a
/// query-string separator and followed by at least one digit.
pub open spec fn has_page_token_at(s: Seq<char>, i: int) -> bool {
    &&& 1 <= i
    &&& i + 5 < s.len()
    &&& is_query_separator(s[i - 1])
    &&& s.subrange(i, i + 5) == page_key()
    &&& is_digit_char(s[i + 5])
}

/// The numeric value of the page token at position `i`.
pub open spec fn token_val_at(s: Seq<char>, i: int) -> nat {
    digits_val(s.subrange(i + 5, digit_run_end(s, i + 5)))
}

/// Does the header hold any page token at all?
pub open spec fn has_page_token(s: Seq<char>) -> bool {
    exists|i: int| has_page_token_at(s, i)
}

/// The larger of two counts.
pub open spec fn nat_max(a: nat, b: nat) -> nat {
    if a >= b {
        a
    } else {
        b
    }
}

/// The largest token value at any position at or after `i`.
pub open spec fn max_page_from(s: Seq<char>, i: int) -> nat
    decreases s.len() - i,
{
    if i >= s.len() {
        0
    } else if has_page_token_at(s, i) {
        nat_max(token_val_at(s, i), max_page_from(s, i + 1))
    } else {
        max_page_from(s, i + 1)
    }
}

/// The largest page-number token value in the header.
pub open spec fn max_page_val(s: Seq<char>) -> nat {
    max_page_from(s, 0)
}

/// The page count a present header resolves to: the largest token
/// value, and never less than 1, since page 1 is always fetched in
/// addition to the pages the header announces.
pub open spec fn resolved_last_page(s: Seq<char>) -> nat {
    nat_max(1, max_page_val(s))
}

/// `max_page_from(s, lo)` really is the maximum over the tokens at or
/// after `lo`: it bounds every one of them, some token attains it whenever
/// one exists, and it is zero when none exists.
pub proof fn lemma_max_page_from_props(s: Seq<char>, lo: int)
    ensures
        forall|i: int| lo <= i && has_page_token_at(s, i) ==> token_val_at(s, i) <= max_page_from(
            s,
            lo,
        ),
        (exists|i: int| lo <= i && has_page_token_at(s, i)) ==> exists|i: int|
            lo <= i && has_page_token_at(s, i) && token_val_at(s, i) == max_page_from(s, lo),
        !(exists|i: int| lo <= i && has_page_token_at(s, i)) ==> max_page_from(s, lo) == 0,
    decreases s.len() - lo,
{
    if lo >= s.len() {
        assert(max_page_from(s, lo) == 0);
        assert forall|i: int| lo <= i implies !has_page_token_at(s, i) by {}
    } else {
        lemma_max_page_from_props(s, lo + 1);
        let rest = max_page_from(s, lo + 1);
        let m = max_page_from(s, lo);
        if has_page_token_at(s, lo) {
            let tv = token_val_at(s, lo);
            assert(m == nat_max(tv, rest));
            assert forall|i: int| lo <= i && has_page_token_at(s, i) implies token_val_at(s, i)
                <= m by {
                if i > lo {
                    assert(token_val_at(s, i) <= rest);
                }
            }
            if tv >= rest {
                assert(has_page_token_at(s, lo) && token_val_at(s, lo) == m);
            } else {
                // rest > tv >= 0, so some token at or after lo + 1 attains rest
                assert(rest > 0);
                assert(exists|i: int| lo + 1 <= i && has_page_token_at(s, i));
                let w = choose|i: int|
                    lo + 1 <= i && has_page_token_at(s, i) && token_val_at(s, i) == rest;
                assert(lo <= w && has_page_token_at(s, w) && token_val_at(s, w) == m);
            }
        } else {
            assert(m == rest);
            assert forall|i: int| lo <= i && has_page_token_at(s, i) implies lo + 1 <= i by {}
            if exists|i: int| lo <= i && has_page_token_at(s, i) {
                let w = choose|i: int|
                    lo + 1 <= i && has_page_token_at(s, i) && token_val_at(s, i) == rest;
                assert(lo <= w && has_page_token_at(s, w) && token_val_at(s, w) == m);
            }
        }
    }
}

/// The resolved page count is the maximum `page=<n>` token value in the
/// header, whatever order the tokens appear in and whatever surrounds
/// them.
pub proof fn lemma_last_page_is_max_token(s: Seq<char>)
    ensures
        forall|i: int| has_page_token_at(s, i) ==> token_val_at(s, i) <= max_page_val(s),
        has_page_token(s) ==> exists|i: int|
            has_page_token_at(s, i) && token_val_at(s, i) == max_page_val(s),
{
    lemma_max_page_from_props(s, 0);
    assert forall|i: int| has_page_token_at(s, i) implies 0 <= i by {}
}

/// Does a page token start at position `j`?
fn page_token_at(v: &Vec<char>, j: usize) -> (b: bool)
    requires
        j < v.len(),
    ensures
        b == has_page_token_at(v@, j as int),
{
    if j < 1 || v.len() - j <= 5 {
        return false;
    }
    let sep = v[j - 1];
    if sep != '?' && sep != '&' {
        return false;
    }
    let is_key = v[j] == 'p' && v[j + 1] == 'a' && v[j + 2] == 'g' && v[j + 3] == 'e' && v[j + 4]
        == '=';
    if is_key {
        assert(v@.subrange(j as int, j as int + 5) =~= page_key());
    } else {
        assert(v@.subrange(j as int, j as int + 5) != page_key()) by {
            if v@.subrange(j as int, j as int + 5) == page_key() {
                assert(v@[j as int] == page_key()[0]);
                assert(v@[j as int + 1] == page_key()[1]);
                assert(v@[j as int + 2] == page_key()[2]);
                assert(v@[j as int + 3] == page_key()[3]);
                assert(v@[j as int + 4] == page_key()[4]);
            }
        }
        return false;
    }
    digit_of(v[j + 5]).is_some()
}

/// Resolve the last page number from the navigation-link header of the
/// probe response.
///
/// An absent header means the resource fits on a single page. A present
/// header must hold at least one `page=<digits>` query parameter; the resolved
/// count is the largest token value, and at least 1, because a page
/// count is a positive number and page 1 is always fetched. A header
/// without any token, or whose largest value does not fit in `usize`,
/// cannot be trusted for a page count and is a hard `PaginationParse`
/// failure.
pub fn last_page_from_header(header: Option<&str>) -> (r: Result<usize, ClientError>)
    ensures
        match header {
            None => r == Ok::<usize, ClientError>(1usize),
            Some(h) => match r {
                Ok(lp) => has_page_token(h@) && lp as nat == resolved_last_page(h@) && lp >= 1,
                Err(e) => e == ClientError::PaginationParse && (!has_page_token(h@)
                    || max_page_val(h@) > usize::MAX),
            },
        },
{
    let h = match header {
        None => {
            return Ok(1);
        },
        Some(h) => h,
    };
    let v = crate::text::chars_vec(h);
    let mut i: usize = v.len();
    let mut found: bool = false;
    let mut over: bool = false;
    let mut best: usize = 0;
    while i > 0
        invariant
            i <= v.len(),
            v@ == h@,
            found <==> exists|t: int| i <= t && has_page_token_at(v@, t),
            over ==> found,
            if over {
                max_page_from(v@, i as int) > usize::MAX
            } else if found {
                best as nat == max_page_from(v@, i as int)
            } else {
                true
            },
        decreases i,
    {
        let j = i - 1;
        if page_token_at(&v, j) {
            let (value, _end) = scan_digits(&v, j + 5);
            assert(has_page_token_at(v@, j as int));
            let ghost rest = max_page_from(v@, j as int + 1);
            let ghost tv = token_val_at(v@, j as int);
            assert(max_page_from(v@, j as int) == nat_max(tv, rest));
            match value {
                Some(tvv) => {
                    if over {
                        // the maximum further right already exceeds usize
                        assert(max_page_from(v@, j as int) >= rest);
                    } else {
                        let prev: usize = if found {
                            best
                        } else {
                            0
                        };
                        best = if tvv >= prev {
                            tvv
                        } else {
                            prev
                        };
                        proof {
                            if !found {
                                lemma_max_page_from_props(v@, j as int + 1);
                            }
                        }
                    }
                    found = true;
                },
                None => {
                    assert(tv > usize::MAX);
                    assert(max_page_from(v@, j as int) >= tv);
                    found = true;
                    over = true;
                },
            }
            assert(i as int - 1 == j as int);
        } else {
            assert(!has_page_token_at(v@, j as int));
            assert forall|t: int| j <= t && has_page_token_at(v@, t) implies j + 1 <= t by {}
        }
        i = j;
    }
    proof {
        if !found {
            lemma_max_page_from_props(v@, 0);
        }
    }
    if over || !found {
        return Err(ClientError::PaginationParse);
    }
    if best >= 1 {
        Ok(best)
    } else {
        // every token said page 0; page 1 is still fetched
        Ok(1)
    }
}

} // verus!
