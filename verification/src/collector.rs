//! Driving the page-by-page collection of one paginated resource, and
//! settling the per-user fan-out with partial-failure tolerance.
//!
//! The collector is a state machine: the caller sends the requests it
//! describes and hands the response data back as plain values. Pages of
//! one resource are accumulated in page order; a failed page aborts the
//! resource (the caller drops the collector), so no partial page list is
//! ever surfaced.

use vstd::prelude::*;
use crate::errors::ClientError;
use crate::pagination::{has_page_token, max_page_val, resolved_last_page, last_page_from_header};
use crate::records::{GHUser, GHRepository};
use crate::request::{
    ApiRequest,
    HttpMethod,
    build_request,
    probe_url_of,
    page_url_of,
    probe_url,
    page_url,
    standard_headers,
    token_view,
};

verus! {

/// Where the collection of one resource stands.
#[derive(Clone, Copy, Debug, PartialEq, Eq, Structural)]
pub enum Phase {
    /// The pagination probe has not been answered yet.
    Probe,
    /// Pages `1..=last` are being fetched; `next` is the page to request
    /// now.
    Fetching { next: usize, last: usize },
    /// Every page has been received.
    Done,
}

/// The page count a probe response header resolves to: always at
/// least 1, since page 1 is fetched in addition to whatever pages the
/// header announces.
pub open spec fn header_page_count(header: Option<&str>) -> nat {
    match header {
        None => 1,
        Some(h) => resolved_last_page(h@),
    }
}

/// One step of the collection: append the received page and move to the
/// following page, or finish after the last one.
pub open spec fn spec_on_page<T>(phase: Phase, acc: Seq<T>, page: Seq<T>) -> (Phase, Seq<T>) {
    match phase {
        Phase::Fetching { next, last } => (
            if next < last {
                Phase::Fetching { next: (next + 1) as usize, last }
            } else {
                Phase::Done
            },
            acc + page,
        ),
        _ => (phase, acc),
    }
}

/// The collection steps folded over a whole sequence of page bodies.
pub open spec fn spec_run<T>(phase: Phase, acc: Seq<T>, pages: Seq<Seq<T>>) -> (Phase, Seq<T>)
    decreases pages.len(),
{
    if pages.len() == 0 {
        (phase, acc)
    } else {
        let stepped = spec_on_page(phase, acc, pages.first());
        spec_run(stepped.0, stepped.1, pages.drop_first())
    }
}

/// Collects one paginated resource: org members, or one user's
/// repositories.
pub struct PageCollector<T> {
    pub base_url: String,
    pub token: Option<String>,
    pub phase: Phase,
    pub records: Vec<T>,
}

impl<T> PageCollector<T> {
    /// A `Fetching` phase never points past the last page.
    pub open spec fn wf(self) -> bool {
        match self.phase {
            Phase::Fetching { next, last } => 1 <= next <= last,
            _ => true,
        }
    }

    /// A fresh collector for the resource rooted at `base_url`.
    pub fn new(base_url: String, token: Option<String>) -> (r: Self)
        ensures
            r.phase == Phase::Probe,
            r.records@ =~= Seq::<T>::empty(),
            r.base_url == base_url,
            r.token == token,
            r.wf(),
    {
        PageCollector { base_url, token, phase: Phase::Probe, records: Vec::new() }
    }

    /// The cheap `Head` probe of the resource's first page, whose
    /// response header resolves the page count.
    pub fn probe_request(&self) -> (r: ApiRequest)
        requires
            self.phase == Phase::Probe,
        ensures
            r.method == HttpMethod::Head,
            r.url@ == probe_url(self.base_url@),
            standard_headers(r.headers@, token_view(self.token)),
    {
        build_request(HttpMethod::Head, probe_url_of(self.base_url.as_str()), self.token.as_ref())
    }

    /// Resolve the page count from the probe response's navigation-link
    /// header and start fetching: pages `1..=last`, page 1 always among
    /// them.
    pub fn on_probe(&mut self, link_header: Option<&str>) -> (r: Result<(), ClientError>)
        requires
            old(self).phase == Phase::Probe,
        ensures
            final(self).base_url == old(self).base_url,
            final(self).token == old(self).token,
            final(self).records == old(self).records,
            final(self).wf(),
            match r {
                Ok(()) => {
                    &&& 1 <= header_page_count(link_header) <= usize::MAX
                    &&& (match link_header {
                        Some(h) => has_page_token(h@),
                        None => true,
                    })
                    &&& final(self).phase == (Phase::Fetching {
                        next: 1,
                        last: header_page_count(link_header) as usize,
                    })
                },
                Err(e) => {
                    &&& e == ClientError::PaginationParse
                    &&& final(self).phase == Phase::Probe
                    &&& (match link_header {
                        Some(h) => !has_page_token(h@) || max_page_val(h@) > usize::MAX,
                        None => false,
                    })
                },
            },
    {
        let last = match last_page_from_header(link_header) {
            Ok(lp) => lp,
            Err(e) => {
                return Err(e);
            },
        };
        self.phase = Phase::Fetching { next: 1, last };
        Ok(())
    }

    /// The page to request now, if any is outstanding.
    pub fn next_page(&self) -> (r: Option<usize>)
        ensures
            match self.phase {
                Phase::Fetching { next, last } => r == Some(next),
                _ => r is None,
            },
    {
        match self.phase {
            Phase::Fetching { next, last: _ } => Some(next),
            _ => None,
        }
    }

    /// The `Get` request for the page `next_page` reports.
    pub fn page_request(&self) -> (r: ApiRequest)
        requires
            self.phase is Fetching,
        ensures
            r.method == HttpMethod::Get,
            r.url@ == page_url(self.base_url@, self.phase->Fetching_next as nat),
            standard_headers(r.headers@, token_view(self.token)),
    {
        let page = match self.phase {
            Phase::Fetching { next, last: _ } => next,
            _ => 1,
        };
        build_request(
            HttpMethod::Get,
            page_url_of(self.base_url.as_str(), page),
            self.token.as_ref(),
        )
    }

    /// Append the records of the page just received, in page order, and
    /// advance.
    pub fn on_page(&mut self, page: Vec<T>)
        requires
            old(self).phase is Fetching,
            old(self).wf(),
        ensures
            final(self).base_url == old(self).base_url,
            final(self).token == old(self).token,
            final(self).wf(),
            (final(self).phase, final(self).records@) == spec_on_page(
                old(self).phase,
                old(self).records@,
                page@,
            ),
    {
        let mut page = page;
        self.records.append(&mut page);
        match self.phase {
            Phase::Fetching { next, last } => {
                if next < last {
                    self.phase = Phase::Fetching { next: next + 1, last };
                } else {
                    self.phase = Phase::Done;
                }
            },
            _ => {},
        }
    }

    /// Has every page been received?
    pub fn is_done(&self) -> (r: bool)
        ensures
            r == (self.phase == Phase::Done),
    {
        match self.phase {
            Phase::Done => true,
            _ => false,
        }
    }

    /// The collected records, in page order.
    pub fn take_records(self) -> (r: Vec<T>)
        requires
            self.phase == Phase::Done,
        ensures
            r == self.records,
    {
        self.records
    }
}

/// A full sequential run over `last` pages, started right after the
/// probe, requests the pages in order and ends with their concatenation:
/// before page `i + 1` (1-based) is consumed, the collector asks for
/// exactly that page, and after the `last`-th page it is done, holding
/// the pages' records in page order.
pub proof fn lemma_sequential_collection<T>(last: usize, pages: Seq<Seq<T>>)
    requires
        1 <= last,
        pages.len() == last,
    ensures
        (spec_run(Phase::Fetching { next: 1, last }, Seq::<T>::empty(), pages) == (
            Phase::Done,
            pages.flatten(),
        )),
        forall|i: int|
            0 <= i < last ==> (#[trigger] spec_run(
                Phase::Fetching { next: 1, last },
                Seq::<T>::empty(),
                pages.take(i),
            ).0 == Phase::Fetching { next: (i + 1) as usize, last }),
{
    lemma_run_from(1, last, Seq::<T>::empty(), pages);
    assert forall|i: int| 0 <= i < last implies #[trigger] spec_run(
        Phase::Fetching { next: 1, last },
        Seq::<T>::empty(),
        pages.take(i),
    ).0 == Phase::Fetching { next: (i + 1) as usize, last } by {
        lemma_run_prefix(1, last, Seq::<T>::empty(), pages, i);
    }
}

/// Running from page `next` over the remaining pages finishes with every
/// page appended.
proof fn lemma_run_from<T>(next: usize, last: usize, acc: Seq<T>, pages: Seq<Seq<T>>)
    requires
        1 <= next <= last,
        pages.len() == last - next + 1,
    ensures
        (spec_run(Phase::Fetching { next, last }, acc, pages) == (
            Phase::Done,
            acc + pages.flatten(),
        )),
    decreases pages.len(),
{
    let stepped = spec_on_page(Phase::Fetching { next, last }, acc, pages.first());
    if next == last {
        assert(stepped.0 == Phase::Done);
        assert(pages.drop_first().len() == 0);
        assert(spec_run(stepped.0, stepped.1, pages.drop_first()) == (Phase::Done, stepped.1));
        assert(pages.drop_first().flatten() =~= Seq::<T>::empty());
        assert(pages.flatten() =~= pages.first() + pages.drop_first().flatten());
        assert(stepped.1 =~= acc + pages.flatten());
    } else {
        lemma_run_from((next + 1) as usize, last, acc + pages.first(), pages.drop_first());
        assert(pages.flatten() =~= pages.first() + pages.drop_first().flatten());
        assert((acc + pages.first()) + pages.drop_first().flatten() =~= acc + pages.flatten());
    }
}

/// After consuming `i` pages the collector is about to request page
/// `next + i`.
proof fn lemma_run_prefix<T>(next: usize, last: usize, acc: Seq<T>, pages: Seq<Seq<T>>, i: int)
    requires
        1 <= next <= last,
        pages.len() == last - next + 1,
        0 <= i < pages.len(),
    ensures
        (spec_run(Phase::Fetching { next, last }, acc, pages.take(i)).0 == Phase::Fetching {
            next: (next + i) as usize,
            last,
        }),
    decreases i,
{
    if i == 0 {
        assert(pages.take(0).len() == 0);
    } else {
        let stepped = spec_on_page(Phase::Fetching { next, last }, acc, pages.first());
        assert(next < last);
        assert(pages.take(i).first() == pages.first());
        assert(pages.take(i).drop_first() =~= pages.drop_first().take(i - 1));
        lemma_run_prefix(
            (next + 1) as usize,
            last,
            acc + pages.first(),
            pages.drop_first(),
            i - 1,
        );
    }
}

/// The fan-out settlement: the entries whose repository fetch succeeded,
/// in settlement order.
pub open spec fn spec_successes(s: Seq<(GHUser, Result<Vec<GHRepository>, ClientError>)>) -> Seq<
    (GHUser, Vec<GHRepository>),
>
    decreases s.len(),
{
    if s.len() == 0 {
        Seq::empty()
    } else {
        let rest = spec_successes(s.drop_first());
        match s.first().1 {
            Ok(repos) => seq![(s.first().0, repos)] + rest,
            Err(_) => rest,
        }
    }
}

/// The logins of the users whose repository fetch failed, in settlement
/// order.
pub open spec fn spec_failed_logins(s: Seq<(GHUser, Result<Vec<GHRepository>, ClientError>)>) -> Seq<
    String,
>
    decreases s.len(),
{
    if s.len() == 0 {
        Seq::empty()
    } else {
        let rest = spec_failed_logins(s.drop_first());
        match s.first().1 {
            Ok(_) => rest,
            Err(_) => seq![s.first().0.login] + rest,
        }
    }
}

/// Settle the per-user fan-out: keep every user whose repository fetch
/// succeeded, drop every user whose fetch failed, and record one warning
/// login per dropped user. A failure for one user never disturbs the
/// others.
pub fn settle_user_results(results: Vec<(GHUser, Result<Vec<GHRepository>, ClientError>)>) -> (r: (
    Vec<(GHUser, Vec<GHRepository>)>,
    Vec<String>,
))
    ensures
        r.0@ == spec_successes(results@),
        r.1@ == spec_failed_logins(results@),
{
    let mut rest = results;
    let mut kept: Vec<(GHUser, Vec<GHRepository>)> = Vec::new();
    let mut warnings: Vec<String> = Vec::new();
    let ghost orig = rest@;
    while rest.len() > 0
        invariant
            spec_successes(orig) =~= kept@ + spec_successes(rest@),
            spec_failed_logins(orig) =~= warnings@ + spec_failed_logins(rest@),
        decreases rest.len(),
    {
        let ghost before = rest@;
        let (user, outcome) = rest.remove(0);
        assert(before.first() == (user, outcome));
        assert(rest@ =~= before.drop_first());
        match outcome {
            Ok(repos) => {
                kept.push((user, repos));
                assert(spec_successes(before) =~= seq![(user, repos)] + spec_successes(
                    before.drop_first(),
                ));
            },
            Err(_) => {
                warnings.push(user.login.clone());
                assert(spec_failed_logins(before) =~= seq![user.login] + spec_failed_logins(
                    before.drop_first(),
                ));
            },
        }
    }
    assert(spec_successes(rest@) =~= Seq::<(GHUser, Vec<GHRepository>)>::empty());
    assert(spec_failed_logins(rest@) =~= Seq::<String>::empty());
    assert(kept@ =~= kept@ + Seq::<(GHUser, Vec<GHRepository>)>::empty());
    assert(warnings@ =~= warnings@ + Seq::<String>::empty());
    (kept, warnings)
}

} // verus!
