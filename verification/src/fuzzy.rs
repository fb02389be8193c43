//! Fuzzy scoring of secrets against a search query.

use vstd::prelude::*;
use fuzzy_matcher::FuzzyMatcher;
use crate::secret::{Secret, SecretView};

verus! {

/// The score the fuzzy matcher gives `text` against `query`: higher is a
/// better match, absent when the text does not match at all.
pub uninterp spec fn fuzzy_score(text: Seq<char>, query: Seq<char>) -> Option<i64>;

/// Relies on `fuzzy_matcher::skim::SkimMatcherV2::default` and
/// `FuzzyMatcher::fuzzy_match`: a pure similarity score that depends on the
/// two strings alone.
#[verifier::external_body]
fn fuzzy_match_score(text: &str, query: &str) -> (r: Option<i64>)
    ensures
        r == fuzzy_score(text@, query@),
{
    fuzzy_matcher::skim::SkimMatcherV2::default().fuzzy_match(text, query)
}

/// The better of two optional scores; an absent score never wins.
pub open spec fn opt_max(a: Option<i64>, b: Option<i64>) -> Option<i64> {
    match (a, b) {
        (None, x) => x,
        (Some(x), None) => Some(x),
        (Some(x), Some(y)) => Some(
            if x >= y {
                x
            } else {
                y
            },
        ),
    }
}

/// The score of an optional field: absent fields never match.
pub open spec fn opt_field_score(o: Option<Seq<char>>, q: Seq<char>) -> Option<i64> {
    match o {
        Some(t) => fuzzy_score(t, q),
        None => None,
    }
}

/// The best score of the query against the name, username and url fields.
pub open spec fn best_field_score(s: SecretView, q: Seq<char>) -> Option<i64> {
    opt_max(
        opt_max(fuzzy_score(s.name, q), opt_field_score(s.username, q)),
        opt_field_score(s.url, q),
    )
}

/// The best score of the query against any individual tag.
pub open spec fn best_tag_score(tags: Seq<Seq<char>>, q: Seq<char>) -> Option<i64>
    decreases tags.len(),
{
    if tags.len() == 0 {
        None
    } else {
        opt_max(best_tag_score(tags.drop_last(), q), fuzzy_score(tags.last(), q))
    }
}

/// A missing score counts as zero when the other side matched.
pub open spec fn score_or_zero(o: Option<i64>) -> i64 {
    match o {
        Some(v) => v,
        None => 0,
    }
}

/// The search score of one secret: the better of its best field score and its
/// best tag score, or nothing when neither matched.
pub open spec fn match_score(s: SecretView, q: Seq<char>) -> Option<i64> {
    match (best_field_score(s, q), best_tag_score(s.tags, q)) {
        (None, None) => None,
        (a, b) => Some(
            if score_or_zero(a) >= score_or_zero(b) {
                score_or_zero(a)
            } else {
                score_or_zero(b)
            },
        ),
    }
}

/// Whether a secret matches the query at all.
pub open spec fn matches_query(s: SecretView, q: Seq<char>) -> bool {
    match_score(s, q) is Some
}

/// The subsequence of records that match the query, in document order.
pub open spec fn matching_secrets(ss: Seq<SecretView>, q: Seq<char>) -> Seq<SecretView> {
    ss.filter(|sv: SecretView| matches_query(sv, q))
}

fn opt_max_of(a: Option<i64>, b: Option<i64>) -> (r: Option<i64>)
    ensures
        r == opt_max(a, b),
{
    match (a, b) {
        (None, x) => x,
        (Some(x), None) => Some(x),
        (Some(x), Some(y)) => Some(
            if x >= y {
                x
            } else {
                y
            },
        ),
    }
}

/// Compute the search score of one secret against a query.
pub fn score_secret(s: &Secret, query: &str) -> (r: Option<i64>)
    ensures
        r == match_score(s@, query@),
{
    let name_sc = fuzzy_match_score(s.name.as_str(), query);
    let user_sc = match &s.username {
        Some(t) => fuzzy_match_score(t.as_str(), query),
        None => None,
    };
    let url_sc = match &s.url {
        Some(t) => fuzzy_match_score(t.as_str(), query),
        None => None,
    };
    let best_field = opt_max_of(opt_max_of(name_sc, user_sc), url_sc);
    let mut best_tag: Option<i64> = None;
    let n = s.tags.len();
    let mut i: usize = 0;
    while i < n
        invariant
            n == s.tags.len(),
            i <= n,
            best_tag == best_tag_score(s@.tags.take(i as int), query@),
        decreases n - i,
    {
        proof {
            assert(s@.tags[i as int] == s.tags@[i as int]@);
        }
        let sc = fuzzy_match_score(s.tags[i].as_str(), query);
        best_tag = opt_max_of(best_tag, sc);
        proof {
            let pre = s@.tags.take(i as int + 1);
            assert(pre.drop_last() =~~= s@.tags.take(i as int));
            assert(pre.last() == s@.tags[i as int]);
        }
        i = i + 1;
    }
    proof {
        assert(s@.tags.take(n as int) =~~= s@.tags);
    }
    match (best_field, best_tag) {
        (None, None) => None,
        (a, b) => {
            let av = match a {
                Some(v) => v,
                None => 0,
            };
            let bv = match b {
                Some(v) => v,
                None => 0,
            };
            Some(
                if av >= bv {
                    av
                } else {
                    bv
                },
            )
        },
    }
}

} // verus!
