//! The serialized form of a cached bundle: a JSON array of
//! `[member, repositories]` pairs, written and read by a strict verified
//! codec.
//!
//! The encoder escapes `"` and `\` inside strings; every other character
//! is written as itself. The decoder accepts exactly the encoder's
//! output shape and rejects everything else, so a corrupt payload is
//! always detected.

use vstd::prelude::*;
use vstd::string::StringExecFns;
use crate::records::{GHUser, GHRepository, CachedBundle, MemberModel, RepoModel, EntryModel,
    member_model, repo_model, repos_model, entry_model, entries_model};
use crate::text::{is_digit_char, digits_val, dec_digits, digit_run_end, push_char, push_decimal,
    chars_vec, scan_digits, lemma_dec_digits_val, lemma_dec_digits_shape, lemma_digit_run_end_at,
    lemma_digit_run_end_props};
use crate::errors::ClientError;

verus! {

// ---------------------------------------------------------------------
// The encoding, as spec functions over the models.
// ---------------------------------------------------------------------

/// The object frame of a member up to its first value.
pub open spec fn lit_login() -> Seq<char> {
    "{\"login\":"@
}

pub open spec fn lit_id() -> Seq<char> {
    ",\"id\":"@
}

pub open spec fn lit_repos_url() -> Seq<char> {
    ",\"repos_url\":"@
}

pub open spec fn lit_avatar_url() -> Seq<char> {
    ",\"avatar_url\":"@
}

pub open spec fn lit_name() -> Seq<char> {
    "{\"name\":"@
}

pub open spec fn lit_language() -> Seq<char> {
    ",\"language\":"@
}

pub open spec fn lit_null() -> Seq<char> {
    "null"@
}

/// One character of a string value: `"` and `\` are escaped with a
/// backslash, everything else stands for itself.
pub open spec fn esc_char(c: char) -> Seq<char> {
    if c == '"' || c == '\\' {
        seq!['\\', c]
    } else {
        seq![c]
    }
}

/// A whole string value, escaped.
pub open spec fn esc_string(s: Seq<char>) -> Seq<char>
    decreases s.len(),
{
    if s.len() == 0 {
        Seq::empty()
    } else {
        esc_char(s.first()) + esc_string(s.drop_first())
    }
}

/// A quoted, escaped string value.
pub open spec fn enc_string(s: Seq<char>) -> Seq<char> {
    seq!['"'] + esc_string(s) + seq!['"']
}

/// A member object.
pub open spec fn enc_member(m: MemberModel) -> Seq<char> {
    lit_login() + enc_string(m.login) + lit_id() + dec_digits(m.id) + lit_repos_url()
        + enc_string(m.repos_url) + lit_avatar_url() + enc_string(m.avatar_url) + seq!['}']
}

/// A language value: the string, or `null` when absent.
pub open spec fn enc_language(l: Option<Seq<char>>) -> Seq<char> {
    match l {
        Some(x) => enc_string(x),
        None => lit_null(),
    }
}

/// A repository object; an absent language is written `null`.
pub open spec fn enc_repo(r: RepoModel) -> Seq<char> {
    lit_name() + enc_string(r.name) + lit_language() + enc_language(r.language) + seq!['}']
}

/// The comma-separated repository objects of a non-empty list.
pub open spec fn enc_repo_items(rs: Seq<RepoModel>) -> Seq<char>
    decreases rs.len(),
{
    if rs.len() == 0 {
        Seq::empty()
    } else if rs.len() == 1 {
        enc_repo(rs.first())
    } else {
        enc_repo(rs.first()) + seq![','] + enc_repo_items(rs.drop_first())
    }
}

/// A repository array.
pub open spec fn enc_repos(rs: Seq<RepoModel>) -> Seq<char> {
    if rs.len() == 0 {
        seq!['[', ']']
    } else {
        seq!['['] + enc_repo_items(rs) + seq![']']
    }
}

/// One `[member, repositories]` pair.
pub open spec fn enc_entry(e: EntryModel) -> Seq<char> {
    seq!['['] + enc_member(e.member) + seq![','] + enc_repos(e.repos) + seq![']']
}

/// The comma-separated entries of a non-empty bundle.
pub open spec fn enc_entries(es: Seq<EntryModel>) -> Seq<char>
    decreases es.len(),
{
    if es.len() == 0 {
        Seq::empty()
    } else if es.len() == 1 {
        enc_entry(es.first())
    } else {
        enc_entry(es.first()) + seq![','] + enc_entries(es.drop_first())
    }
}

/// The whole serialized bundle.
pub open spec fn enc_bundle(es: Seq<EntryModel>) -> Seq<char> {
    if es.len() == 0 {
        seq!['[', ']']
    } else {
        seq!['['] + enc_entries(es) + seq![']']
    }
}

// ---------------------------------------------------------------------
// Push lemmas: extending a value on the right extends its encoding on
// the right.
// ---------------------------------------------------------------------

proof fn lemma_esc_string_push(s: Seq<char>, c: char)
    ensures
        esc_string(s.push(c)) == esc_string(s) + esc_char(c),
    decreases s.len(),
{
    if s.len() == 0 {
        assert(s.push(c).drop_first() =~= Seq::<char>::empty());
        assert(esc_string(s.push(c)) =~= esc_char(c) + esc_string(Seq::empty()));
        assert(esc_string(s.push(c)) =~= esc_string(s) + esc_char(c));
    } else {
        assert(s.push(c).first() == s.first());
        assert(s.push(c).drop_first() =~= s.drop_first().push(c));
        lemma_esc_string_push(s.drop_first(), c);
        assert(esc_string(s.push(c)) =~= esc_char(s.first()) + (esc_string(s.drop_first())
            + esc_char(c)));
        assert(esc_char(s.first()) + (esc_string(s.drop_first()) + esc_char(c)) =~= (esc_char(
            s.first(),
        ) + esc_string(s.drop_first())) + esc_char(c));
    }
}

proof fn lemma_enc_repo_items_push(rs: Seq<RepoModel>, r: RepoModel)
    requires
        rs.len() >= 1,
    ensures
        enc_repo_items(rs.push(r)) == enc_repo_items(rs) + seq![','] + enc_repo(r),
    decreases rs.len(),
{
    if rs.len() == 1 {
        assert(rs.push(r).first() == rs.first());
        assert(rs.push(r).drop_first() =~= seq![r]);
        assert(enc_repo_items(seq![r]) == enc_repo(seq![r].first()));
        assert(enc_repo_items(rs.push(r)) =~= enc_repo(rs.first()) + seq![','] + enc_repo(r));
    } else {
        assert(rs.push(r).first() == rs.first());
        assert(rs.push(r).drop_first() =~= rs.drop_first().push(r));
        lemma_enc_repo_items_push(rs.drop_first(), r);
        assert(enc_repo_items(rs.push(r)) =~= (enc_repo(rs.first()) + seq![','] + enc_repo_items(
            rs.drop_first(),
        )) + seq![','] + enc_repo(r));
    }
}

proof fn lemma_enc_entries_push(es: Seq<EntryModel>, e: EntryModel)
    requires
        es.len() >= 1,
    ensures
        enc_entries(es.push(e)) == enc_entries(es) + seq![','] + enc_entry(e),
    decreases es.len(),
{
    if es.len() == 1 {
        assert(es.push(e).first() == es.first());
        assert(es.push(e).drop_first() =~= seq![e]);
        assert(enc_entries(seq![e]) == enc_entry(seq![e].first()));
        assert(enc_entries(es.push(e)) =~= enc_entry(es.first()) + seq![','] + enc_entry(e));
    } else {
        assert(es.push(e).first() == es.first());
        assert(es.push(e).drop_first() =~= es.drop_first().push(e));
        lemma_enc_entries_push(es.drop_first(), e);
        assert(enc_entries(es.push(e)) =~= (enc_entry(es.first()) + seq![','] + enc_entries(
            es.drop_first(),
        )) + seq![','] + enc_entry(e));
    }
}

// ---------------------------------------------------------------------
// The decoding, as spec functions: each parser consumes a prefix of the
// input and hands back the parsed value and the remaining suffix.
// ---------------------------------------------------------------------

/// Consume exactly the literal `lit`.
pub open spec fn sp_expect(s: Seq<char>, lit: Seq<char>) -> Option<Seq<char>> {
    if lit.len() <= s.len() && s.take(lit.len() as int) == lit {
        Some(s.skip(lit.len() as int))
    } else {
        None
    }
}

/// Consume exactly the character `c`.
pub open spec fn sp_char(s: Seq<char>, c: char) -> Option<Seq<char>> {
    if s.len() >= 1 && s.first() == c {
        Some(s.drop_first())
    } else {
        None
    }
}

/// Consume the characters of a string value up to and including the
/// closing quote, unescaping as it goes.
pub open spec fn sp_string_body(s: Seq<char>, acc: Seq<char>) -> Option<(Seq<char>, Seq<char>)>
    decreases s.len(),
{
    if s.len() == 0 {
        None
    } else if s.first() == '"' {
        Some((acc, s.drop_first()))
    } else if s.first() == '\\' {
        if s.len() >= 2 && (s[1] == '"' || s[1] == '\\') {
            sp_string_body(s.skip(2), acc.push(s[1]))
        } else {
            None
        }
    } else {
        sp_string_body(s.drop_first(), acc.push(s.first()))
    }
}

/// Consume a quoted string value.
pub open spec fn sp_string(s: Seq<char>) -> Option<(Seq<char>, Seq<char>)> {
    match sp_char(s, '"') {
        Some(r) => sp_string_body(r, Seq::empty()),
        None => None,
    }
}

/// Consume a decimal number that fits in `usize`.
pub open spec fn sp_number(s: Seq<char>) -> Option<(nat, Seq<char>)> {
    let end = digit_run_end(s, 0);
    if end < 1 {
        None
    } else {
        let n = digits_val(s.take(end));
        if n <= usize::MAX {
            Some((n, s.skip(end)))
        } else {
            None
        }
    }
}

/// Consume a language value: `null`, or a string.
pub open spec fn sp_language(s: Seq<char>) -> Option<(Option<Seq<char>>, Seq<char>)> {
    match sp_expect(s, lit_null()) {
        Some(r) => Some((None, r)),
        None => match sp_string(s) {
            Some((x, r)) => Some((Some(x), r)),
            None => None,
        },
    }
}

/// Consume a member object.
pub open spec fn sp_member(s: Seq<char>) -> Option<(MemberModel, Seq<char>)> {
    match sp_expect(s, lit_login()) {
        None => None,
        Some(s1) => match sp_string(s1) {
            None => None,
            Some((login, s2)) => match sp_expect(s2, lit_id()) {
                None => None,
                Some(s3) => match sp_number(s3) {
                    None => None,
                    Some((id, s4)) => match sp_expect(s4, lit_repos_url()) {
                        None => None,
                        Some(s5) => match sp_string(s5) {
                            None => None,
                            Some((repos_url, s6)) => match sp_expect(s6, lit_avatar_url()) {
                                None => None,
                                Some(s7) => match sp_string(s7) {
                                    None => None,
                                    Some((avatar_url, s8)) => match sp_char(s8, '}') {
                                        None => None,
                                        Some(s9) => Some(
                                            (
                                                MemberModel { login, id, repos_url, avatar_url },
                                                s9,
                                            ),
                                        ),
                                    },
                                },
                            },
                        },
                    },
                },
            },
        },
    }
}

/// Consume a repository object.
pub open spec fn sp_repo(s: Seq<char>) -> Option<(RepoModel, Seq<char>)> {
    match sp_expect(s, lit_name()) {
        None => None,
        Some(s1) => match sp_string(s1) {
            None => None,
            Some((name, s2)) => match sp_expect(s2, lit_language()) {
                None => None,
                Some(s3) => match sp_language(s3) {
                    None => None,
                    Some((language, s4)) => match sp_char(s4, '}') {
                        None => None,
                        Some(s5) => Some((RepoModel { name, language }, s5)),
                    },
                },
            },
        },
    }
}

/// A successful string-body parse consumes at least the closing quote.
pub proof fn lemma_sp_string_body_progress(s: Seq<char>, acc: Seq<char>)
    ensures
        match sp_string_body(s, acc) {
            Some((x, r)) => r.len() < s.len(),
            None => true,
        },
    decreases s.len(),
{
    if s.len() == 0 {
    } else if s.first() == '"' {
    } else if s.first() == '\\' {
        if s.len() >= 2 && (s[1] == '"' || s[1] == '\\') {
            lemma_sp_string_body_progress(s.skip(2), acc.push(s[1]));
        }
    } else {
        lemma_sp_string_body_progress(s.drop_first(), acc.push(s.first()));
    }
}

/// A successful string parse consumes at least its two quotes.
pub proof fn lemma_sp_string_progress(s: Seq<char>)
    ensures
        match sp_string(s) {
            Some((x, r)) => r.len() < s.len(),
            None => true,
        },
{
    if s.len() >= 1 && s.first() == '"' {
        lemma_sp_string_body_progress(s.drop_first(), Seq::empty());
    }
}

/// A successful number parse consumes at least one digit.
pub proof fn lemma_sp_number_progress(s: Seq<char>)
    ensures
        match sp_number(s) {
            Some((n, r)) => r.len() < s.len(),
            None => true,
        },
{
    lemma_digit_run_end_props(s, 0);
}

/// A successful repository parse consumes at least its frame.
pub proof fn lemma_sp_repo_progress(s: Seq<char>)
    ensures
        match sp_repo(s) {
            Some((x, r)) => r.len() < s.len(),
            None => true,
        },
{
    if let Some(s1) = sp_expect(s, lit_name()) {
        lemma_sp_string_progress(s1);
        if let Some((name, s2)) = sp_string(s1) {
            if let Some(s3) = sp_expect(s2, lit_language()) {
                lemma_sp_string_progress(s3);
            }
        }
    }
}

/// A successful member parse consumes at least its frame.
pub proof fn lemma_sp_member_progress(s: Seq<char>)
    ensures
        match sp_member(s) {
            Some((x, r)) => r.len() < s.len(),
            None => true,
        },
{
    if let Some(s1) = sp_expect(s, lit_login()) {
        lemma_sp_string_progress(s1);
        if let Some((login, s2)) = sp_string(s1) {
            if let Some(s3) = sp_expect(s2, lit_id()) {
                lemma_sp_number_progress(s3);
                if let Some((id, s4)) = sp_number(s3) {
                    if let Some(s5) = sp_expect(s4, lit_repos_url()) {
                        lemma_sp_string_progress(s5);
                        if let Some((ru, s6)) = sp_string(s5) {
                            if let Some(s7) = sp_expect(s6, lit_avatar_url()) {
                                lemma_sp_string_progress(s7);
                            }
                        }
                    }
                }
            }
        }
    }
}

/// Consume the items of a non-empty repository array, up to and
/// including the closing bracket.
pub open spec fn sp_repo_items(s: Seq<char>) -> Option<(Seq<RepoModel>, Seq<char>)>
    decreases s.len(),
{
    match sp_repo(s) {
        None => None,
        Some((r0, s1)) => {
            proof {
                lemma_sp_repo_progress(s);
            }
            match sp_char(s1, ',') {
                Some(s2) => match sp_repo_items(s2) {
                    None => None,
                    Some((rest, s3)) => Some((seq![r0] + rest, s3)),
                },
                None => match sp_char(s1, ']') {
                    Some(s2) => Some((seq![r0], s2)),
                    None => None,
                },
            }
        },
    }
}

/// Consume a repository array.
pub open spec fn sp_repos(s: Seq<char>) -> Option<(Seq<RepoModel>, Seq<char>)> {
    match sp_char(s, '[') {
        None => None,
        Some(s1) => match sp_char(s1, ']') {
            Some(s2) => Some((Seq::empty(), s2)),
            None => sp_repo_items(s1),
        },
    }
}

/// Consume one `[member, repositories]` entry.
pub open spec fn sp_entry(s: Seq<char>) -> Option<(EntryModel, Seq<char>)> {
    match sp_char(s, '[') {
        None => None,
        Some(s1) => match sp_member(s1) {
            None => None,
            Some((member, s2)) => match sp_char(s2, ',') {
                None => None,
                Some(s3) => match sp_repos(s3) {
                    None => None,
                    Some((repos, s4)) => match sp_char(s4, ']') {
                        None => None,
                        Some(s5) => Some((EntryModel { member, repos }, s5)),
                    },
                },
            },
        },
    }
}

/// A successful repository-array parse consumes at least its brackets.
pub proof fn lemma_sp_repo_items_progress(s: Seq<char>)
    ensures
        match sp_repo_items(s) {
            Some((x, r)) => r.len() < s.len(),
            None => true,
        },
    decreases s.len(),
{
    lemma_sp_repo_progress(s);
    if let Some((r0, s1)) = sp_repo(s) {
        if let Some(s2) = sp_char(s1, ',') {
            lemma_sp_repo_items_progress(s2);
        }
    }
}

/// A successful entry parse consumes at least its brackets.
pub proof fn lemma_sp_entry_progress(s: Seq<char>)
    ensures
        match sp_entry(s) {
            Some((x, r)) => r.len() < s.len(),
            None => true,
        },
{
    if let Some(s1) = sp_char(s, '[') {
        lemma_sp_member_progress(s1);
        if let Some((member, s2)) = sp_member(s1) {
            if let Some(s3) = sp_char(s2, ',') {
                if let Some(s4) = sp_char(s3, '[') {
                    lemma_sp_repo_items_progress(s4);
                }
            }
        }
    }
}

/// Consume the entries of a non-empty bundle, up to and including the
/// closing bracket.
pub open spec fn sp_entries(s: Seq<char>) -> Option<(Seq<EntryModel>, Seq<char>)>
    decreases s.len(),
{
    match sp_entry(s) {
        None => None,
        Some((e0, s1)) => {
            proof {
                lemma_sp_entry_progress(s);
            }
            match sp_char(s1, ',') {
                Some(s2) => match sp_entries(s2) {
                    None => None,
                    Some((rest, s3)) => Some((seq![e0] + rest, s3)),
                },
                None => match sp_char(s1, ']') {
                    Some(s2) => Some((seq![e0], s2)),
                    None => None,
                },
            }
        },
    }
}

/// Consume a whole bundle.
pub open spec fn sp_bundle(s: Seq<char>) -> Option<(Seq<EntryModel>, Seq<char>)> {
    match sp_char(s, '[') {
        None => None,
        Some(s1) => match sp_char(s1, ']') {
            Some(s2) => Some((Seq::empty(), s2)),
            None => sp_entries(s1),
        },
    }
}

/// What a payload deserializes to: the bundle, if the whole input is
/// exactly one encoded bundle.
pub open spec fn spec_decode(s: Seq<char>) -> Option<Seq<EntryModel>> {
    match sp_bundle(s) {
        Some((b, rest)) => if rest.len() == 0 {
            Some(b)
        } else {
            None
        },
        None => None,
    }
}

// ---------------------------------------------------------------------
// The verified encoder.
// ---------------------------------------------------------------------

/// Append the quoted, escaped form of `x`.
fn push_string_enc(s: &mut String, x: &str)
    ensures
        final(s)@ == old(s)@ + enc_string(x@),
{
    let v = chars_vec(x);
    push_char(s, '"');
    let mut i: usize = 0;
    while i < v.len()
        invariant
            i <= v.len(),
            v@ == x@,
            s@ =~= old(s)@ + seq!['"'] + esc_string(x@.take(i as int)),
        decreases v.len() - i,
    {
        let c = v[i];
        proof {
            lemma_esc_string_push(x@.take(i as int), c);
            assert(x@.take(i as int).push(c) =~= x@.take(i as int + 1));
        }
        if c == '"' || c == '\\' {
            push_char(s, '\\');
            push_char(s, c);
        } else {
            push_char(s, c);
        }
        assert(s@ =~= old(s)@ + seq!['"'] + esc_string(x@.take(i as int + 1)));
        i = i + 1;
    }
    assert(x@.take(x@.len() as int) =~= x@);
    push_char(s, '"');
    assert(s@ =~= old(s)@ + enc_string(x@));
}

/// Append the encoded member object.
fn push_member(s: &mut String, u: &GHUser)
    ensures
        final(s)@ == old(s)@ + enc_member(member_model(*u)),
{
    s.append("{\"login\":");
    push_string_enc(s, u.login.as_str());
    s.append(",\"id\":");
    push_decimal(s, u.id);
    s.append(",\"repos_url\":");
    push_string_enc(s, u.repos_url.as_str());
    s.append(",\"avatar_url\":");
    push_string_enc(s, u.avatar_url.as_str());
    push_char(s, '}');
    assert(s@ =~= old(s)@ + enc_member(member_model(*u)));
}

/// Append the encoded repository object.
fn push_repo(s: &mut String, r: &GHRepository)
    ensures
        final(s)@ == old(s)@ + enc_repo(repo_model(*r)),
{
    s.append("{\"name\":");
    push_string_enc(s, r.name.as_str());
    s.append(",\"language\":");
    match &r.language {
        Some(l) => {
            push_string_enc(s, l.as_str());
        },
        None => {
            s.append("null");
        },
    }
    push_char(s, '}');
    assert(s@ =~= old(s)@ + enc_repo(repo_model(*r)));
}

/// Append the encoded repository array.
fn push_repos(s: &mut String, rs: &Vec<GHRepository>)
    ensures
        final(s)@ == old(s)@ + enc_repos(repos_model(rs@)),
{
    let ghost ms = repos_model(rs@);
    push_char(s, '[');
    let mut i: usize = 0;
    while i < rs.len()
        invariant
            i <= rs.len(),
            ms == repos_model(rs@),
            ms.len() == rs@.len(),
            forall|k: int| 0 <= k < rs@.len() ==> ms[k] == repo_model(rs@[k]),
            s@ =~= old(s)@ + seq!['['] + (if i == 0 {
                Seq::<char>::empty()
            } else {
                enc_repo_items(ms.take(i as int))
            }),
        decreases rs.len() - i,
    {
        if i > 0 {
            push_char(s, ',');
        }
        push_repo(s, &rs[i]);
        proof {
            assert(ms.take(i as int).push(ms[i as int]) =~= ms.take(i as int + 1));
            if i == 0 {
                assert(enc_repo_items(ms.take(1)) == enc_repo(ms.take(1).first()));
                assert(ms.take(1).first() == ms[0]);
            } else {
                lemma_enc_repo_items_push(ms.take(i as int), ms[i as int]);
            }
        }
        assert(s@ =~= old(s)@ + seq!['['] + enc_repo_items(ms.take(i as int + 1)));
        i = i + 1;
    }
    push_char(s, ']');
    proof {
        assert(ms.take(ms.len() as int) =~= ms);
        if rs.len() == 0 {
            assert(s@ =~= old(s)@ + enc_repos(ms));
        } else {
            assert(s@ =~= old(s)@ + enc_repos(ms));
        }
    }
}

/// Append one encoded `[member, repositories]` entry.
fn push_entry(s: &mut String, e: &(GHUser, Vec<GHRepository>))
    ensures
        final(s)@ == old(s)@ + enc_entry(entry_model(*e)),
{
    push_char(s, '[');
    push_member(s, &e.0);
    push_char(s, ',');
    push_repos(s, &e.1);
    push_char(s, ']');
    assert(s@ =~= old(s)@ + enc_entry(entry_model(*e)));
}

/// Serialize a bundle. The result is exactly `enc_bundle` of the
/// bundle's model, so decoding it gives the bundle back.
pub fn encode_bundle(b: &CachedBundle) -> (r: String)
    ensures
        r@ == enc_bundle(b@),
{
    let ghost ms = entries_model(b.entries@);
    let mut s = String::new();
    push_char(&mut s, '[');
    let mut i: usize = 0;
    while i < b.entries.len()
        invariant
            i <= b.entries.len(),
            ms == entries_model(b.entries@),
            ms.len() == b.entries@.len(),
            forall|k: int| 0 <= k < b.entries@.len() ==> ms[k] == entry_model(b.entries@[k]),
            s@ =~= seq!['['] + (if i == 0 {
                Seq::<char>::empty()
            } else {
                enc_entries(ms.take(i as int))
            }),
        decreases b.entries.len() - i,
    {
        if i > 0 {
            push_char(&mut s, ',');
        }
        push_entry(&mut s, &b.entries[i]);
        proof {
            assert(ms.take(i as int).push(ms[i as int]) =~= ms.take(i as int + 1));
            if i == 0 {
                assert(enc_entries(ms.take(1)) == enc_entry(ms.take(1).first()));
                assert(ms.take(1).first() == ms[0]);
            } else {
                lemma_enc_entries_push(ms.take(i as int), ms[i as int]);
            }
        }
        assert(s@ =~= seq!['['] + enc_entries(ms.take(i as int + 1)));
        i = i + 1;
    }
    push_char(&mut s, ']');
    proof {
        assert(ms.take(ms.len() as int) =~= ms);
        assert(s@ =~= enc_bundle(b@));
    }
    s
}

// ---------------------------------------------------------------------
// Completeness: every parser accepts the corresponding encoding and
// gives the encoded value back, whatever follows it.
// ---------------------------------------------------------------------

proof fn lemma_sp_expect_complete(lit: Seq<char>, rest: Seq<char>)
    ensures
        sp_expect(lit + rest, lit) == Some(rest),
{
    let s = lit + rest;
    assert(s.take(lit.len() as int) =~= lit);
    assert(s.skip(lit.len() as int) =~= rest);
}

proof fn lemma_sp_char_complete(c: char, rest: Seq<char>)
    ensures
        sp_char(seq![c] + rest, c) == Some(rest),
{
    let s = seq![c] + rest;
    assert(s.first() == c);
    assert(s.drop_first() =~= rest);
}

#[verifier::rlimit(50)]
proof fn lemma_sp_string_body_complete(x: Seq<char>, acc: Seq<char>, rest: Seq<char>)
    ensures
        sp_string_body(esc_string(x) + (seq!['"'] + rest), acc) == Some((acc + x, rest)),
    decreases x.len(),
{
    let s = esc_string(x) + (seq!['"'] + rest);
    if x.len() == 0 {
        assert(s =~= seq!['"'] + rest);
        assert(s.first() == '"');
        assert(s.drop_first() =~= rest);
        assert(acc + x =~= acc);
    } else {
        let c = x.first();
        let xr = x.drop_first();
        assert(esc_string(x) == esc_char(c) + esc_string(xr));
        if c == '"' || c == '\\' {
            assert(s =~= seq!['\\'] + (seq![c] + (esc_string(xr) + (seq!['"'] + rest))));
            assert(s.first() == '\\');
            assert(s[1] == c);
            assert(s.len() >= 2);
            assert(s.skip(2) =~= esc_string(xr) + (seq!['"'] + rest));
            lemma_sp_string_body_complete(xr, acc.push(c), rest);
            assert(acc.push(c) + xr =~= acc + x);
        } else {
            assert(s =~= seq![c] + (esc_string(xr) + (seq!['"'] + rest)));
            assert(s.first() == c);
            assert(s.drop_first() =~= esc_string(xr) + (seq!['"'] + rest));
            lemma_sp_string_body_complete(xr, acc.push(c), rest);
            assert(acc.push(c) + xr =~= acc + x);
        }
    }
}

#[verifier::rlimit(50)]
proof fn lemma_sp_string_complete(x: Seq<char>, rest: Seq<char>)
    ensures
        sp_string(enc_string(x) + rest) == Some((x, rest)),
{
    let s = enc_string(x) + rest;
    assert(s =~= seq!['"'] + (esc_string(x) + (seq!['"'] + rest)));
    assert(s.first() == '"');
    assert(s.drop_first() =~= esc_string(x) + (seq!['"'] + rest));
    lemma_sp_string_body_complete(x, Seq::empty(), rest);
    assert(Seq::<char>::empty() + x =~= x);
}

#[verifier::rlimit(50)]
proof fn lemma_sp_number_complete(n: nat, rest: Seq<char>)
    requires
        n <= usize::MAX,
        rest.len() == 0 || !is_digit_char(rest.first()),
    ensures
        sp_number(dec_digits(n) + rest) == Some((n, rest)),
{
    let d = dec_digits(n);
    let s = d + rest;
    lemma_dec_digits_shape(n);
    assert forall|k: int| 0 <= k < d.len() implies is_digit_char(#[trigger] s[k]) by {
        assert(s[k] == d[k]);
    }
    if d.len() < s.len() {
        assert(s[d.len() as int] == rest.first());
    }
    lemma_digit_run_end_at(s, 0, d.len() as int);
    assert(s.take(d.len() as int) =~= d);
    lemma_dec_digits_val(n);
    assert(s.skip(d.len() as int) =~= rest);
}

#[verifier::rlimit(50)]
proof fn lemma_sp_language_complete(l: Option<Seq<char>>, rest: Seq<char>)
    ensures
        sp_language(enc_language(l) + rest) == Some((l, rest)),
{
    reveal_strlit("null");
    match l {
        None => {
            lemma_sp_expect_complete(lit_null(), rest);
        },
        Some(x) => {
            let s = enc_string(x) + rest;
            assert(s =~= seq!['"'] + (esc_string(x) + (seq!['"'] + rest)));
            assert(s[0] == '"');
            assert(lit_null()[0] == 'n');
            if sp_expect(s, lit_null()) is Some {
                assert(s.take(lit_null().len() as int)[0] == lit_null()[0]);
                assert(false);
            }
            lemma_sp_string_complete(x, rest);
        },
    }
}

#[verifier::rlimit(50)]
proof fn lemma_sp_member_complete(m: MemberModel, rest: Seq<char>)
    requires
        m.id <= usize::MAX,
    ensures
        sp_member(enc_member(m) + rest) == Some((m, rest)),
{
    reveal_strlit(",\"repos_url\":");
    let t9 = seq!['}'] + rest;
    let t8 = enc_string(m.avatar_url) + t9;
    let t7 = lit_avatar_url() + t8;
    let t6 = enc_string(m.repos_url) + t7;
    let t5 = lit_repos_url() + t6;
    let t4 = dec_digits(m.id) + t5;
    let t3 = lit_id() + t4;
    let t2 = enc_string(m.login) + t3;
    let s = lit_login() + t2;
    assert(enc_member(m) + rest =~= s);
    lemma_sp_expect_complete(lit_login(), t2);
    lemma_sp_string_complete(m.login, t3);
    lemma_sp_expect_complete(lit_id(), t4);
    // the digit run of the id stops at the comma that opens the next field
    assert(t5.first() == ',');
    assert(!is_digit_char(','));
    lemma_sp_number_complete(m.id, t5);
    lemma_sp_expect_complete(lit_repos_url(), t6);
    lemma_sp_string_complete(m.repos_url, t7);
    lemma_sp_expect_complete(lit_avatar_url(), t8);
    lemma_sp_string_complete(m.avatar_url, t9);
    lemma_sp_char_complete('}', rest);
    assert(MemberModel {
        login: m.login,
        id: m.id,
        repos_url: m.repos_url,
        avatar_url: m.avatar_url,
    } == m);
}

#[verifier::rlimit(50)]
proof fn lemma_sp_repo_complete(r: RepoModel, rest: Seq<char>)
    ensures
        sp_repo(enc_repo(r) + rest) == Some((r, rest)),
{
    let t5 = seq!['}'] + rest;
    let t4 = enc_language(r.language) + t5;
    let t3 = lit_language() + t4;
    let t2 = enc_string(r.name) + t3;
    let s = lit_name() + t2;
    assert(enc_repo(r) + rest =~= s);
    lemma_sp_expect_complete(lit_name(), t2);
    lemma_sp_string_complete(r.name, t3);
    lemma_sp_expect_complete(lit_language(), t4);
    lemma_sp_language_complete(r.language, t5);
    lemma_sp_char_complete('}', rest);
    assert(RepoModel { name: r.name, language: r.language } == r);
}

#[verifier::rlimit(50)]
proof fn lemma_sp_repo_items_complete(rs: Seq<RepoModel>, rest: Seq<char>)
    requires
        rs.len() >= 1,
    ensures
        sp_repo_items(enc_repo_items(rs) + (seq![']'] + rest)) == Some((rs, rest)),
    decreases rs.len(),
{
    let r0 = rs.first();
    if rs.len() == 1 {
        let s1 = seq![']'] + rest;
        let s = enc_repo(r0) + s1;
        assert(enc_repo_items(rs) + (seq![']'] + rest) =~= s);
        lemma_sp_repo_complete(r0, s1);
        assert(s1.first() == ']');
        assert(sp_char(s1, ',') is None);
        assert(s1.drop_first() =~= rest);
        assert(seq![r0] =~= rs);
    } else {
        let tail = enc_repo_items(rs.drop_first()) + (seq![']'] + rest);
        let s1 = seq![','] + tail;
        let s = enc_repo(r0) + s1;
        assert(enc_repo_items(rs) + (seq![']'] + rest) =~= s);
        lemma_sp_repo_complete(r0, s1);
        assert(s1.first() == ',');
        assert(s1.drop_first() =~= tail);
        lemma_sp_repo_items_complete(rs.drop_first(), rest);
        assert(seq![r0] + rs.drop_first() =~= rs);
    }
}

#[verifier::rlimit(50)]
proof fn lemma_sp_repos_complete(rs: Seq<RepoModel>, rest: Seq<char>)
    ensures
        sp_repos(enc_repos(rs) + rest) == Some((rs, rest)),
{
    if rs.len() == 0 {
        let s = enc_repos(rs) + rest;
        assert(s =~= seq!['['] + (seq![']'] + rest));
        assert(s.first() == '[');
        assert(s.drop_first() =~= seq![']'] + rest);
        assert((seq![']'] + rest).first() == ']');
        assert((seq![']'] + rest).drop_first() =~= rest);
        assert(Seq::<RepoModel>::empty() =~= rs);
    } else {
        reveal_strlit("{\"name\":");
        let inner = enc_repo_items(rs) + (seq![']'] + rest);
        let s = seq!['['] + inner;
        assert(enc_repos(rs) + rest =~= s);
        assert(s.first() == '[');
        assert(s.drop_first() =~= inner);
        // the items start with a repository object, never with `]`
        assert(lit_name()[0] == '{');
        if rs.len() == 1 {
            assert(enc_repo_items(rs) == enc_repo(rs.first()));
            assert(inner[0] == lit_name()[0]);
        } else {
            assert(inner[0] == lit_name()[0]);
        }
        assert(inner.first() == '{');
        assert(sp_char(inner, ']') is None);
        lemma_sp_repo_items_complete(rs, rest);
    }
}

#[verifier::rlimit(50)]
proof fn lemma_sp_entry_complete(e: EntryModel, rest: Seq<char>)
    requires
        e.member.id <= usize::MAX,
    ensures
        sp_entry(enc_entry(e) + rest) == Some((e, rest)),
{
    let t5 = seq![']'] + rest;
    let t4 = enc_repos(e.repos) + t5;
    let t3 = seq![','] + t4;
    let t2 = enc_member(e.member) + t3;
    let s = seq!['['] + t2;
    assert(enc_entry(e) + rest =~= s);
    assert(s.first() == '[');
    assert(s.drop_first() =~= t2);
    lemma_sp_member_complete(e.member, t3);
    assert(t3.first() == ',');
    assert(t3.drop_first() =~= t4);
    lemma_sp_repos_complete(e.repos, t5);
    assert(t5.first() == ']');
    assert(t5.drop_first() =~= rest);
    assert(EntryModel { member: e.member, repos: e.repos } == e);
}

/// Do all the member ids of the bundle fit the machine word they are
/// decoded into?
pub open spec fn entry_ids_fit(es: Seq<EntryModel>) -> bool {
    forall|k: int| 0 <= k < es.len() ==> (#[trigger] es[k]).member.id <= usize::MAX
}

#[verifier::rlimit(50)]
proof fn lemma_sp_entries_complete(es: Seq<EntryModel>, rest: Seq<char>)
    requires
        es.len() >= 1,
        entry_ids_fit(es),
    ensures
        sp_entries(enc_entries(es) + (seq![']'] + rest)) == Some((es, rest)),
    decreases es.len(),
{
    let e0 = es.first();
    assert(e0 == es[0]);
    if es.len() == 1 {
        let s1 = seq![']'] + rest;
        let s = enc_entry(e0) + s1;
        assert(enc_entries(es) + (seq![']'] + rest) =~= s);
        lemma_sp_entry_complete(e0, s1);
        assert(s1.first() == ']');
        assert(sp_char(s1, ',') is None);
        assert(s1.drop_first() =~= rest);
        assert(seq![e0] =~= es);
    } else {
        let tail = enc_entries(es.drop_first()) + (seq![']'] + rest);
        let s1 = seq![','] + tail;
        let s = enc_entry(e0) + s1;
        assert(enc_entries(es) + (seq![']'] + rest) =~= s);
        lemma_sp_entry_complete(e0, s1);
        assert(s1.first() == ',');
        assert(s1.drop_first() =~= tail);
        assert(entry_ids_fit(es.drop_first())) by {
            assert forall|k: int| 0 <= k < es.drop_first().len() implies (#[trigger] es.drop_first()[k]).member.id <= usize::MAX by {
                assert(es.drop_first()[k] == es[k + 1]);
            }
        }
        lemma_sp_entries_complete(es.drop_first(), rest);
        assert(seq![e0] + es.drop_first() =~= es);
    }
}

#[verifier::rlimit(50)]
proof fn lemma_sp_bundle_complete(es: Seq<EntryModel>, rest: Seq<char>)
    requires
        entry_ids_fit(es),
    ensures
        sp_bundle(enc_bundle(es) + rest) == Some((es, rest)),
{
    if es.len() == 0 {
        let s = enc_bundle(es) + rest;
        assert(s =~= seq!['['] + (seq![']'] + rest));
        assert(s.first() == '[');
        assert(s.drop_first() =~= seq![']'] + rest);
        assert((seq![']'] + rest).first() == ']');
        assert((seq![']'] + rest).drop_first() =~= rest);
        assert(Seq::<EntryModel>::empty() =~= es);
    } else {
        let inner = enc_entries(es) + (seq![']'] + rest);
        let s = seq!['['] + inner;
        assert(enc_bundle(es) + rest =~= s);
        assert(s.first() == '[');
        assert(s.drop_first() =~= inner);
        // the entries start with `[`, never with `]`
        if es.len() == 1 {
            assert(enc_entries(es) == enc_entry(es.first()));
            assert(inner[0] == '[');
        } else {
            assert(inner[0] == '[');
        }
        assert(inner.first() == '[');
        assert(sp_char(inner, ']') is None);
        lemma_sp_entries_complete(es, rest);
    }
}

/// Round trip: decoding an encoded bundle yields exactly the bundle that
/// was encoded, for every bundle whose member ids fit the machine word,
/// including empty repository lists and absent languages.
pub proof fn lemma_bundle_round_trip(es: Seq<EntryModel>)
    requires
        entry_ids_fit(es),
    ensures
        spec_decode(enc_bundle(es)) == Some(es),
{
    lemma_sp_bundle_complete(es, Seq::empty());
    assert(enc_bundle(es) + Seq::<char>::empty() =~= enc_bundle(es));
}

/// Every real bundle round-trips: its model's ids come from machine
/// words, so serializing and deserializing gives a structurally equal
/// bundle.
pub proof fn lemma_cached_bundle_round_trip(b: CachedBundle)
    ensures
        spec_decode(enc_bundle(b@)) == Some(b@),
{
    assert(entry_ids_fit(b@)) by {
        assert forall|k: int| 0 <= k < b@.len() implies (#[trigger] b@[k]).member.id
            <= usize::MAX by {
            assert(b@[k] == entry_model(b.entries@[k]));
        }
    }
    lemma_bundle_round_trip(b@);
}

// ---------------------------------------------------------------------
// The verified decoder. Each function parses at position `i` of `v` and
// behaves exactly as its spec parser does on the suffix from `i`.
// ---------------------------------------------------------------------

/// Match the literal `lit` at position `i`.
fn p_expect(v: &Vec<char>, i: usize, lit: &str) -> (r: Option<usize>)
    requires
        i <= v.len(),
    ensures
        match r {
            Some(j) => i <= j <= v.len() && j == i + lit@.len() && sp_expect(
                v@.skip(i as int),
                lit@,
            ) == Some(v@.skip(j as int)),
            None => sp_expect(v@.skip(i as int), lit@) is None,
        },
{
    let n = lit.unicode_len();
    if v.len() - i < n {
        return None;
    }
    let mut j: usize = 0;
    while j < n
        invariant
            j <= n,
            n == lit@.len(),
            i + n <= v.len(),
            forall|k: int| 0 <= k < j ==> v@[i + k] == lit@[k],
        decreases n - j,
    {
        if v[i + j] != lit.get_char(j) {
            assert(v@.skip(i as int).take(n as int)[j as int] != lit@[j as int]);
            return None;
        }
        j = j + 1;
    }
    assert(v@.skip(i as int).take(n as int) =~= lit@);
    assert(v@.skip(i as int).skip(n as int) =~= v@.skip(i as int + n as int));
    Some(i + n)
}

/// Parse a quoted string value at position `i`.
fn p_string(v: &Vec<char>, i: usize) -> (r: Option<(String, usize)>)
    requires
        i <= v.len(),
    ensures
        match r {
            Some((x, j)) => i < j <= v.len() && sp_string(v@.skip(i as int)) == Some(
                (x@, v@.skip(j as int)),
            ),
            None => sp_string(v@.skip(i as int)) is None,
        },
{
    if i >= v.len() || v[i] != '"' {
        return None;
    }
    assert(v@.skip(i as int).drop_first() =~= v@.skip(i as int + 1));
    let mut out = String::new();
    let mut k: usize = i + 1;
    loop
        invariant
            i + 1 <= k <= v.len(),
            sp_string(v@.skip(i as int)) == sp_string_body(v@.skip(k as int), out@),
        decreases v.len() - k,
    {
        if k >= v.len() {
            return None;
        }
        let c = v[k];
        assert(v@.skip(k as int).first() == c);
        if c == '"' {
            assert(v@.skip(k as int).drop_first() =~= v@.skip(k as int + 1));
            return Some((out, k + 1));
        } else if c == '\\' {
            if k + 1 >= v.len() {
                return None;
            }
            let e = v[k + 1];
            assert(v@.skip(k as int)[1] == e);
            if e == '"' || e == '\\' {
                assert(v@.skip(k as int).skip(2) =~= v@.skip(k as int + 2));
                push_char(&mut out, e);
                k = k + 2;
            } else {
                return None;
            }
        } else {
            assert(v@.skip(k as int).drop_first() =~= v@.skip(k as int + 1));
            push_char(&mut out, c);
            k = k + 1;
        }
    }
}

/// Parse a decimal number at position `i`.
fn p_number(v: &Vec<char>, i: usize) -> (r: Option<(usize, usize)>)
    requires
        i <= v.len(),
    ensures
        match r {
            Some((n, j)) => i < j <= v.len() && sp_number(v@.skip(i as int)) == Some(
                (n as nat, v@.skip(j as int)),
            ),
            None => sp_number(v@.skip(i as int)) is None,
        },
{
    let (value, end) = scan_digits(v, i);
    let ghost su = v@.skip(i as int);
    proof {
        lemma_digit_run_end_props(v@, i as int);
        assert forall|k: int| 0 <= k < end - i implies is_digit_char(#[trigger] su[k]) by {
            assert(su[k] == v@[i + k]);
        }
        if (end as int) < v@.len() {
            assert(su[end - i] == v@[end as int]);
        }
        lemma_digit_run_end_at(su, 0, end as int - i);
        assert(su.take(end as int - i) =~= v@.subrange(i as int, end as int));
        assert(su.skip(end as int - i) =~= v@.skip(end as int));
    }
    if end == i {
        return None;
    }
    match value {
        Some(n) => Some((n, end)),
        None => None,
    }
}

/// Parse a repository object at position `i`.
fn p_repo(v: &Vec<char>, i: usize) -> (r: Option<(GHRepository, usize)>)
    requires
        i <= v.len(),
    ensures
        match r {
            Some((x, j)) => i <= j <= v.len() && sp_repo(v@.skip(i as int)) == Some(
                (repo_model(x), v@.skip(j as int)),
            ),
            None => sp_repo(v@.skip(i as int)) is None,
        },
{
    let i1 = match p_expect(v, i, "{\"name\":") {
        Some(j) => j,
        None => {
            return None;
        },
    };
    let (name, i2) = match p_string(v, i1) {
        Some(x) => x,
        None => {
            return None;
        },
    };
    let i3 = match p_expect(v, i2, ",\"language\":") {
        Some(j) => j,
        None => {
            return None;
        },
    };
    let (language, i4) = match p_expect(v, i3, "null") {
        Some(j) => (None, j),
        None => {
            match p_string(v, i3) {
                Some((l, j)) => (Some(l), j),
                None => {
                    return None;
                },
            }
        },
    };
    if i4 < v.len() && v[i4] == '}' {
        assert(v@.skip(i4 as int).first() == '}');
        assert(v@.skip(i4 as int).drop_first() =~= v@.skip(i4 as int + 1));
        Some((GHRepository { name, language }, i4 + 1))
    } else {
        None
    }
}

/// Parse a member object at position `i`.
fn p_member(v: &Vec<char>, i: usize) -> (r: Option<(GHUser, usize)>)
    requires
        i <= v.len(),
    ensures
        match r {
            Some((x, j)) => i <= j <= v.len() && sp_member(v@.skip(i as int)) == Some(
                (member_model(x), v@.skip(j as int)),
            ),
            None => sp_member(v@.skip(i as int)) is None,
        },
{
    let i1 = match p_expect(v, i, "{\"login\":") {
        Some(j) => j,
        None => {
            return None;
        },
    };
    let (login, i2) = match p_string(v, i1) {
        Some(x) => x,
        None => {
            return None;
        },
    };
    let i3 = match p_expect(v, i2, ",\"id\":") {
        Some(j) => j,
        None => {
            return None;
        },
    };
    let (id, i4) = match p_number(v, i3) {
        Some(x) => x,
        None => {
            return None;
        },
    };
    let i5 = match p_expect(v, i4, ",\"repos_url\":") {
        Some(j) => j,
        None => {
            return None;
        },
    };
    let (repos_url, i6) = match p_string(v, i5) {
        Some(x) => x,
        None => {
            return None;
        },
    };
    let i7 = match p_expect(v, i6, ",\"avatar_url\":") {
        Some(j) => j,
        None => {
            return None;
        },
    };
    let (avatar_url, i8) = match p_string(v, i7) {
        Some(x) => x,
        None => {
            return None;
        },
    };
    if i8 < v.len() && v[i8] == '}' {
        assert(v@.skip(i8 as int).first() == '}');
        assert(v@.skip(i8 as int).drop_first() =~= v@.skip(i8 as int + 1));
        Some((GHUser { login, id, repos_url, avatar_url }, i8 + 1))
    } else {
        None
    }
}

/// Parse the items of a non-empty repository array at position `i`.
fn p_repo_items(v: &Vec<char>, i: usize) -> (r: Option<(Vec<GHRepository>, usize)>)
    requires
        i <= v.len(),
    ensures
        match r {
            Some((x, j)) => i <= j <= v.len() && sp_repo_items(v@.skip(i as int)) == Some(
                (repos_model(x@), v@.skip(j as int)),
            ),
            None => sp_repo_items(v@.skip(i as int)) is None,
        },
    decreases v.len() - i,
{
    let (r0, i1) = match p_repo(v, i) {
        Some(x) => x,
        None => {
            return None;
        },
    };
    proof {
        lemma_sp_repo_progress(v@.skip(i as int));
    }
    if i1 < v.len() && v[i1] == ',' {
        assert(v@.skip(i1 as int).first() == ',');
        assert(v@.skip(i1 as int).drop_first() =~= v@.skip(i1 as int + 1));
        let (mut rest, i2) = match p_repo_items(v, i1 + 1) {
            Some(x) => x,
            None => {
                return None;
            },
        };
        let ghost old_rest = rest@;
        rest.insert(0, r0);
        assert(rest@ =~= seq![r0] + old_rest);
        assert(repos_model(rest@) =~= seq![repo_model(r0)] + repos_model(old_rest));
        Some((rest, i2))
    } else if i1 < v.len() && v[i1] == ']' {
        assert(v@.skip(i1 as int).first() == ']');
        assert(sp_char(v@.skip(i1 as int), ',') is None);
        assert(v@.skip(i1 as int).drop_first() =~= v@.skip(i1 as int + 1));
        let mut one: Vec<GHRepository> = Vec::new();
        one.push(r0);
        assert(repos_model(one@) =~= seq![repo_model(r0)]);
        Some((one, i1 + 1))
    } else {
        assert(sp_char(v@.skip(i1 as int), ',') is None);
        assert(sp_char(v@.skip(i1 as int), ']') is None);
        None
    }
}

/// Parse a repository array at position `i`.
fn p_repos(v: &Vec<char>, i: usize) -> (r: Option<(Vec<GHRepository>, usize)>)
    requires
        i <= v.len(),
    ensures
        match r {
            Some((x, j)) => i <= j <= v.len() && sp_repos(v@.skip(i as int)) == Some(
                (repos_model(x@), v@.skip(j as int)),
            ),
            None => sp_repos(v@.skip(i as int)) is None,
        },
{
    if i >= v.len() || v[i] != '[' {
        return None;
    }
    assert(v@.skip(i as int).first() == '[');
    assert(v@.skip(i as int).drop_first() =~= v@.skip(i as int + 1));
    if i + 1 < v.len() && v[i + 1] == ']' {
        assert(v@.skip(i as int + 1).first() == ']');
        assert(v@.skip(i as int + 1).drop_first() =~= v@.skip(i as int + 2));
        let empty_list: Vec<GHRepository> = Vec::new();
        assert(repos_model(empty_list@) =~= Seq::<RepoModel>::empty());
        return Some((empty_list, i + 2));
    }
    assert(sp_char(v@.skip(i as int + 1), ']') is None);
    p_repo_items(v, i + 1)
}

/// Parse one `[member, repositories]` entry at position `i`.
fn p_entry(v: &Vec<char>, i: usize) -> (r: Option<((GHUser, Vec<GHRepository>), usize)>)
    requires
        i <= v.len(),
    ensures
        match r {
            Some((x, j)) => i <= j <= v.len() && sp_entry(v@.skip(i as int)) == Some(
                (entry_model(x), v@.skip(j as int)),
            ),
            None => sp_entry(v@.skip(i as int)) is None,
        },
{
    if i >= v.len() || v[i] != '[' {
        return None;
    }
    assert(v@.skip(i as int).first() == '[');
    assert(v@.skip(i as int).drop_first() =~= v@.skip(i as int + 1));
    let (member, i1) = match p_member(v, i + 1) {
        Some(x) => x,
        None => {
            return None;
        },
    };
    if i1 >= v.len() || v[i1] != ',' {
        return None;
    }
    assert(v@.skip(i1 as int).first() == ',');
    assert(v@.skip(i1 as int).drop_first() =~= v@.skip(i1 as int + 1));
    let (repos, i2) = match p_repos(v, i1 + 1) {
        Some(x) => x,
        None => {
            return None;
        },
    };
    if i2 >= v.len() || v[i2] != ']' {
        return None;
    }
    assert(v@.skip(i2 as int).first() == ']');
    assert(v@.skip(i2 as int).drop_first() =~= v@.skip(i2 as int + 1));
    Some(((member, repos), i2 + 1))
}

/// Parse the entries of a non-empty bundle at position `i`.
fn p_entries(v: &Vec<char>, i: usize) -> (r: Option<(Vec<(GHUser, Vec<GHRepository>)>, usize)>)
    requires
        i <= v.len(),
    ensures
        match r {
            Some((x, j)) => i <= j <= v.len() && sp_entries(v@.skip(i as int)) == Some(
                (entries_model(x@), v@.skip(j as int)),
            ),
            None => sp_entries(v@.skip(i as int)) is None,
        },
    decreases v.len() - i,
{
    let (e0, i1) = match p_entry(v, i) {
        Some(x) => x,
        None => {
            return None;
        },
    };
    proof {
        lemma_sp_entry_progress(v@.skip(i as int));
    }
    if i1 < v.len() && v[i1] == ',' {
        assert(v@.skip(i1 as int).first() == ',');
        assert(v@.skip(i1 as int).drop_first() =~= v@.skip(i1 as int + 1));
        let (mut rest, i2) = match p_entries(v, i1 + 1) {
            Some(x) => x,
            None => {
                return None;
            },
        };
        let ghost old_rest = rest@;
        rest.insert(0, e0);
        assert(rest@ =~= seq![e0] + old_rest);
        assert(entries_model(rest@) =~= seq![entry_model(e0)] + entries_model(old_rest));
        Some((rest, i2))
    } else if i1 < v.len() && v[i1] == ']' {
        assert(v@.skip(i1 as int).first() == ']');
        assert(sp_char(v@.skip(i1 as int), ',') is None);
        assert(v@.skip(i1 as int).drop_first() =~= v@.skip(i1 as int + 1));
        let mut one: Vec<(GHUser, Vec<GHRepository>)> = Vec::new();
        one.push(e0);
        assert(entries_model(one@) =~= seq![entry_model(e0)]);
        Some((one, i1 + 1))
    } else {
        assert(sp_char(v@.skip(i1 as int), ',') is None);
        assert(sp_char(v@.skip(i1 as int), ']') is None);
        None
    }
}

/// Deserialize a bundle payload. Exactly the payloads the encoder
/// produces are accepted; everything else is reported corrupt.
pub fn decode_bundle(s: &str) -> (r: Result<CachedBundle, ClientError>)
    ensures
        match r {
            Ok(b) => spec_decode(s@) == Some(b@),
            Err(e) => e == ClientError::CacheCorrupt && spec_decode(s@) is None,
        },
{
    let v = chars_vec(s);
    assert(v@.skip(0) =~= s@);
    if v.len() == 0 || v[0] != '[' {
        return Err(ClientError::CacheCorrupt);
    }
    assert(s@.first() == '[');
    assert(s@.drop_first() =~= v@.skip(1));
    if v.len() >= 2 && v[1] == ']' {
        assert(v@.skip(1).first() == ']');
        assert(v@.skip(1).drop_first() =~= v@.skip(2));
        if v.len() == 2 {
            let empty_entries: Vec<(GHUser, Vec<GHRepository>)> = Vec::new();
            assert(entries_model(empty_entries@) =~= Seq::<EntryModel>::empty());
            assert(v@.skip(2).len() == 0);
            return Ok(CachedBundle::new(empty_entries));
        }
        return Err(ClientError::CacheCorrupt);
    }
    assert(sp_char(v@.skip(1), ']') is None);
    match p_entries(&v, 1) {
        Some((entries, j)) => {
            if j == v.len() {
                assert(v@.skip(j as int).len() == 0);
                Ok(CachedBundle::new(entries))
            } else {
                assert(v@.skip(j as int).len() > 0);
                Err(ClientError::CacheCorrupt)
            }
        },
        None => Err(ClientError::CacheCorrupt),
    }
}

} // verus!
