//! The record types fetched from the API, and their mathematical models.

use vstd::prelude::*;

verus! {

/// One member of the organization, as the API reports it.
#[derive(Clone, Debug, PartialEq)]
pub struct GHUser {
    pub login: String,
    pub id: usize,
    pub repos_url: String,
    pub avatar_url: String,
}

/// One repository of a user. `language` is `None` when the platform
/// reports no language for the repository.
#[derive(Clone, Debug, PartialEq)]
pub struct GHRepository {
    pub name: String,
    pub language: Option<String>,
}

/// The mathematical model of a member: every field as a plain sequence
/// or number.
pub ghost struct MemberModel {
    pub login: Seq<char>,
    pub id: nat,
    pub repos_url: Seq<char>,
    pub avatar_url: Seq<char>,
}

/// The mathematical model of a repository.
pub ghost struct RepoModel {
    pub name: Seq<char>,
    pub language: Option<Seq<char>>,
}

/// One entry of the cached bundle: a member together with all of the
/// member's repositories.
pub ghost struct EntryModel {
    pub member: MemberModel,
    pub repos: Seq<RepoModel>,
}

pub open spec fn member_model(u: GHUser) -> MemberModel {
    MemberModel {
        login: u.login@,
        id: u.id as nat,
        repos_url: u.repos_url@,
        avatar_url: u.avatar_url@,
    }
}

pub open spec fn repo_model(r: GHRepository) -> RepoModel {
    RepoModel {
        name: r.name@,
        language: match r.language {
            Some(l) => Some(l@),
            None => None,
        },
    }
}

pub open spec fn repos_model(rs: Seq<GHRepository>) -> Seq<RepoModel> {
    rs.map_values(|r: GHRepository| repo_model(r))
}

pub open spec fn entry_model(e: (GHUser, Vec<GHRepository>)) -> EntryModel {
    EntryModel { member: member_model(e.0), repos: repos_model(e.1@) }
}

pub open spec fn entries_model(es: Seq<(GHUser, Vec<GHRepository>)>) -> Seq<EntryModel> {
    es.map_values(|e: (GHUser, Vec<GHRepository>)| entry_model(e))
}

/// The full result of one successful fetch: each member paired with the
/// member's repositories, in the order the fan-out settled them.
#[derive(Clone, Debug, PartialEq)]
pub struct CachedBundle {
    pub entries: Vec<(GHUser, Vec<GHRepository>)>,
}

impl View for CachedBundle {
    type V = Seq<EntryModel>;

    open spec fn view(&self) -> Seq<EntryModel> {
        entries_model(self.entries@)
    }
}

impl CachedBundle {
    pub fn new(entries: Vec<(GHUser, Vec<GHRepository>)>) -> (r: CachedBundle)
        ensures
            r@ == entries_model(entries@),
    {
        CachedBundle { entries }
    }
}

/// How many of the repositories report the language `lang`.
pub open spec fn count_lang(rs: Seq<GHRepository>, lang: Seq<char>) -> nat
    decreases rs.len(),
{
    if rs.len() == 0 {
        0
    } else {
        count_lang(rs.drop_last(), lang) + (match rs.last().language {
            Some(l) => if l@ == lang {
                1nat
            } else {
                0nat
            },
            None => 0nat,
        })
    }
}

/// A repository that reports `lang` makes the count positive.
pub proof fn lemma_count_lang_pos(rs: Seq<GHRepository>, lang: Seq<char>, i: int)
    requires
        0 <= i < rs.len(),
        match rs[i].language {
            Some(l) => l@ == lang,
            None => false,
        },
    ensures
        count_lang(rs, lang) > 0,
    decreases rs.len(),
{
    if i == rs.len() - 1 {
    } else {
        assert(rs.drop_last()[i] == rs[i]);
        lemma_count_lang_pos(rs.drop_last(), lang, i);
    }
}

/// A positive count names at least one repository.
pub proof fn lemma_count_lang_witness(rs: Seq<GHRepository>, lang: Seq<char>)
    requires
        count_lang(rs, lang) > 0,
    ensures
        exists|i: int|
            0 <= i < rs.len() && match (#[trigger] rs[i]).language {
                Some(l) => l@ == lang,
                None => false,
            },
    decreases rs.len(),
{
    let last = rs.len() - 1;
    if match rs[last].language {
        Some(l) => l@ == lang,
        None => false,
    } {
        assert(0 <= last < rs.len());
    } else {
        lemma_count_lang_witness(rs.drop_last(), lang);
        let w = choose|i: int|
            0 <= i < rs.drop_last().len() && match (#[trigger] rs.drop_last()[i]).language {
                Some(l) => l@ == lang,
                None => false,
            };
        assert(rs.drop_last()[w] == rs[w]);
    }
}

/// Is `lang` already one of the keys of `counts`?
fn has_language_key(counts: &Vec<(String, usize)>, lang: &String) -> (r: bool)
    ensures
        r == exists|j: int| 0 <= j < counts@.len() && (#[trigger] counts@[j]).0@ == lang@,
{
    let mut j: usize = 0;
    while j < counts.len()
        invariant
            j <= counts@.len(),
            forall|k: int| 0 <= k < j ==> (#[trigger] counts@[k]).0@ != lang@,
        decreases counts.len() - j,
    {
        if counts[j].0 == *lang {
            return true;
        }
        j = j + 1;
    }
    false
}

/// Group the repositories by reported language and count each group.
///
/// Every language that appears gets exactly one row, holding the exact
/// number of repositories reporting it — always positive, since a row
/// only exists because some repository put it there. Repositories
/// without a reported language are not counted.
#[verifier::rlimit(100)]
pub fn language_count(repositories: Vec<GHRepository>) -> (r: Vec<(String, usize)>)
    ensures
        forall|i: int, j: int| 0 <= i < j < r@.len() ==> r@[i].0@ != r@[j].0@,
        forall|i: int|
            0 <= i < r@.len() ==> (#[trigger] r@[i]).1 as nat == count_lang(
                repositories@,
                r@[i].0@,
            ) && r@[i].1 > 0,
        forall|lang: Seq<char>|
            count_lang(repositories@, lang) > 0 ==> exists|i: int|
                0 <= i < r@.len() && (#[trigger] r@[i]).0@ == lang,
{
    let rs = repositories;
    let mut counts: Vec<(String, usize)> = Vec::new();
    let mut i: usize = 0;
    while i < rs.len()
        invariant
            i <= rs@.len(),
            forall|a: int, b: int| 0 <= a < b < counts@.len() ==> counts@[a].0@ != counts@[b].0@,
            forall|a: int|
                0 <= a < counts@.len() ==> (#[trigger] counts@[a]).1 as nat == count_lang(
                    rs@,
                    counts@[a].0@,
                ) && counts@[a].1 > 0,
            forall|k: int|
                0 <= k < i ==> match (#[trigger] rs@[k]).language {
                    Some(l) => exists|a: int|
                        0 <= a < counts@.len() && (#[trigger] counts@[a]).0@ == l@,
                    None => true,
                },
        decreases rs.len() - i,
    {
        let ghost counts_in = counts@;
        let repo = &rs[i];
        match &repo.language {
            Some(lang) => {
                let already = has_language_key(&counts, lang);
                if !already {
                    // count this language across the whole list
                    let mut c: usize = 0;
                    let mut k: usize = 0;
                    while k < rs.len()
                        invariant
                            k <= rs@.len(),
                            c <= k,
                            c as nat == count_lang(rs@.take(k as int), lang@),
                        decreases rs.len() - k,
                    {
                        let ghost pre = rs@.take(k as int);
                        proof {
                            assert(rs@.take(k as int + 1).drop_last() =~= pre);
                            assert(rs@.take(k as int + 1).last() == rs@[k as int]);
                        }
                        let other = &rs[k];
                        match &other.language {
                            Some(l2) => {
                                if *l2 == *lang {
                                    c = c + 1;
                                }
                            },
                            None => {},
                        }
                        k = k + 1;
                    }
                    proof {
                        assert(rs@.take(rs@.len() as int) =~= rs@);
                        lemma_count_lang_pos(rs@, lang@, i as int);
                    }
                    counts.push((lang.clone(), c));
                }
                proof {
                    if already {
                        let a0 = choose|a: int|
                            0 <= a < counts_in.len() && (#[trigger] counts_in[a]).0@ == lang@;
                        assert(counts@[a0].0@ == lang@);
                    } else {
                        assert(counts@[counts@.len() - 1].0@ == lang@);
                    }
                    assert(exists|a: int|
                        0 <= a < counts@.len() && (#[trigger] counts@[a]).0@ == lang@);
                }
            },
            None => {},
        }
        proof {
            assert forall|k: int|
                0 <= k < i + 1 implies match (#[trigger] rs@[k]).language {
                Some(l) => exists|a: int|
                    0 <= a < counts@.len() && (#[trigger] counts@[a]).0@ == l@,
                None => true,
            } by {
                if k < i {
                    match rs@[k].language {
                        Some(l) => {
                            let a0 = choose|a: int|
                                0 <= a < counts_in.len() && (#[trigger] counts_in[a]).0@ == l@;
                            assert(counts@[a0].0@ == l@);
                        },
                        None => {},
                    }
                }
            }
        }
        i = i + 1;
    }
    proof {
        assert forall|lang: Seq<char>| count_lang(rs@, lang) > 0 implies exists|a: int|
            0 <= a < counts@.len() && (#[trigger] counts@[a]).0@ == lang by {
            lemma_count_lang_witness(rs@, lang);
        }
    }
    counts
}

} // verus!
