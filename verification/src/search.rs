//! Fuzzy filtering of the catalog by a query.

use vstd::prelude::*;
use nucleo_matcher::pattern::{CaseMatching, Normalization, Pattern};
use nucleo_matcher::{Config, Matcher, Utf32Str};

use crate::catalog::{AppEntry, app_names};
use crate::order::{
    lex_lt, rank_lt, order_by_key, lemma_lex_irreflexive, lemma_lex_asymmetric, lemma_sorted_unique,
};
use crate::text::{
    codes, char_codes, is_blank, is_blank_spec, lemma_codes_injective, text_lt, is_ascii_text,
    ascii_lower, ascii_upper, lemma_ascii_case,
};

verus! {

#[verifier::external_type_specification]
#[verifier::external_body]
pub struct ExMatcher(Matcher);

/// The score nucleo gives `name` for `query`: `Pattern::parse` of the query
/// (case ignored, smart normalisation) scored with `Pattern::score` against
/// the name, by a matcher made with `Config::DEFAULT`; `None` when it does
/// not match.
pub uninterp spec fn fuzzy_score(query: Seq<char>, name: Seq<char>) -> Option<u32>;

/// Makes a matcher with nucleo's default configuration (`Matcher::new`).
#[verifier::external_body]
fn new_matcher() -> Matcher {
    Matcher::new(Config::DEFAULT)
}

/// Scores `name` against `query` with nucleo (`Pattern::parse`, then
/// `Pattern::score` on the name's UTF-32 form). The claim is that the result
/// depends on the query and the name alone: `score` overwrites the matcher's
/// case and normalisation settings from the pattern, and every other setting
/// of a matcher made by `new_matcher` is `Config::DEFAULT`'s; the matcher's
/// scratch memory does not affect the score. Case is ignored: for an ASCII
/// query, `Atom::new` turns each word's letters into small letters
/// (`make_ascii_lowercase`) before scoring, so the query in lower case scores
/// the same.
#[verifier::external_body]
fn score_name(matcher: &mut Matcher, query: &str, name: &str) -> (score: Option<u32>)
    ensures
        score == fuzzy_score(query@, name@),
        is_ascii_text(query@) ==> score == fuzzy_score(ascii_lower(query@), name@),
{
    let mut buf = Vec::new();
    Pattern::parse(query, CaseMatching::Ignore, Normalization::Smart).score(
        Utf32Str::new(name, &mut buf),
        matcher,
    )
}

/// Whether app `i` matches the query.
pub open spec fn is_match(query: Seq<char>, names: Seq<Seq<char>>, i: int) -> bool {
    fuzzy_score(query, names[i]) is Some
}

/// Matching app `i` is listed before matching app `j`: a higher score first,
/// then the name that comes first by character, then the earlier app.
pub open spec fn outranks(query: Seq<char>, names: Seq<Seq<char>>, i: int, j: int) -> bool {
    let si = fuzzy_score(query, names[i])->0;
    let sj = fuzzy_score(query, names[j])->0;
    ||| si > sj
    ||| si == sj && text_lt(names[i], names[j])
    ||| si == sj && names[i] == names[j] && i < j
}

/// What filtering the apps named `names` by `query` returns: every app, in
/// catalog order, for a blank query; otherwise each matching app exactly
/// once, best first.
pub open spec fn is_filter_result(query: Seq<char>, names: Seq<Seq<char>>, r: Seq<usize>) -> bool {
    if is_blank_spec(query) {
        r == Seq::new(names.len(), |i: int| i as usize)
    } else {
        &&& forall|i: usize| r.contains(i) <==> (i < names.len() && is_match(query, names, i as int))
        &&& forall|a: int, b: int|
            0 <= a < b < r.len() ==> outranks(query, names, r[a] as int, r[b] as int)
    }
}

/// What filtering returns: the filter result for the query and, for an ASCII
/// query, the filter result for the query in lower case as well.
pub open spec fn filter_returns(query: Seq<char>, names: Seq<Seq<char>>, r: Seq<usize>) -> bool {
    &&& is_filter_result(query, names, r)
    &&& is_ascii_text(query) ==> is_filter_result(ascii_lower(query), names, r)
}

/// A filter result for an ASCII query is the filter result for the query in
/// lower case, when every app scores the same against both.
proof fn lemma_filter_result_lowered(query: Seq<char>, names: Seq<Seq<char>>, r: Seq<usize>)
    requires
        is_filter_result(query, names, r),
        !is_blank_spec(query) ==> forall|h: int|
            0 <= h < names.len() ==> #[trigger] fuzzy_score(query, names[h]) == fuzzy_score(
                ascii_lower(query),
                names[h],
            ),
    ensures
        is_filter_result(ascii_lower(query), names, r),
{
    lemma_ascii_case(query);
    let lq = ascii_lower(query);
    if !is_blank_spec(query) {
        assert forall|i: usize| r.contains(i) <==> (i < names.len() && is_match(lq, names, i as int)) by {
            if i < names.len() {
                assert(fuzzy_score(query, names[i as int]) == fuzzy_score(lq, names[i as int]));
            }
        }
        assert forall|a: int, b: int| 0 <= a < b < r.len() implies outranks(
            lq,
            names,
            r[a] as int,
            r[b] as int,
        ) by {
            assert(r.contains(r[a]));
            assert(r.contains(r[b]));
            assert(fuzzy_score(query, names[r[a] as int]) == fuzzy_score(lq, names[r[a] as int]));
            assert(fuzzy_score(query, names[r[b] as int]) == fuzzy_score(lq, names[r[b] as int]));
            assert(outranks(query, names, r[a] as int, r[b] as int));
        }
    }
}

/// Filtering ignores the case of ASCII letters: for an ASCII query, the query,
/// the query in upper case and the query in lower case list the same apps in
/// the same order.
pub proof fn lemma_filter_ignores_ascii_case(
    query: Seq<char>,
    names: Seq<Seq<char>>,
    r: Seq<usize>,
    r_upper: Seq<usize>,
    r_lower: Seq<usize>,
)
    requires
        is_ascii_text(query),
        filter_returns(query, names, r),
        filter_returns(ascii_upper(query), names, r_upper),
        filter_returns(ascii_lower(query), names, r_lower),
    ensures
        r_upper == r,
        r_lower == r,
{
    lemma_ascii_case(query);
    lemma_filter_result_unique(ascii_lower(query), names, r, r_upper);
    lemma_filter_result_unique(ascii_lower(query), names, r, r_lower);
}

/// The sort key of a matching app: the score, reversed so that higher scores
/// come first, then the name's code points.
pub open spec fn search_key(score: u32, name: Seq<char>) -> Seq<u32> {
    seq![(u32::MAX - score) as u32] + codes(name)
}

proof fn lemma_search_key_rank(
    keys: Seq<Seq<u32>>,
    query: Seq<char>,
    names: Seq<Seq<char>>,
    i: int,
    j: int,
)
    requires
        0 <= i < keys.len(),
        0 <= j < keys.len(),
        0 <= i < names.len(),
        0 <= j < names.len(),
        is_match(query, names, i),
        is_match(query, names, j),
        keys[i] == search_key(fuzzy_score(query, names[i])->0, names[i]),
        keys[j] == search_key(fuzzy_score(query, names[j])->0, names[j]),
    ensures
        rank_lt(keys, i, j) == outranks(query, names, i, j),
{
    let si = fuzzy_score(query, names[i])->0;
    let sj = fuzzy_score(query, names[j])->0;
    let ki = keys[i];
    let kj = keys[j];
    assert(ki[0] == (u32::MAX - si) as u32);
    assert(kj[0] == (u32::MAX - sj) as u32);
    assert(ki.drop_first() =~= codes(names[i]));
    assert(kj.drop_first() =~= codes(names[j]));
    if ki == kj {
        assert(codes(names[i]) == codes(names[j]));
        lemma_codes_injective(names[i], names[j]);
        lemma_lex_irreflexive(codes(names[i]));
    }
    if si == sj && names[i] == names[j] {
        assert(ki =~= kj);
    }
}

/// No app outranks itself, and of two apps at most one outranks the other.
pub proof fn lemma_outranks_asymmetric(query: Seq<char>, names: Seq<Seq<char>>, i: int, j: int)
    ensures
        outranks(query, names, i, j) ==> !outranks(query, names, j, i),
{
    lemma_lex_asymmetric(codes(names[i]), codes(names[j]));
    if names[i] == names[j] {
        lemma_lex_irreflexive(codes(names[i]));
    }
}

/// A filter lists no app twice.
pub proof fn lemma_filter_result_distinct(query: Seq<char>, names: Seq<Seq<char>>, r: Seq<usize>)
    requires
        names.len() <= usize::MAX,
        is_filter_result(query, names, r),
    ensures
        forall|a: int, b: int| 0 <= a < b < r.len() ==> r[a] != r[b],
{
    if is_blank_spec(query) {
        assert forall|a: int, b: int| 0 <= a < b < r.len() implies r[a] != r[b] by {
            assert(r[a] == a as usize && r[b] == b as usize);
        }
    } else {
        assert forall|a: int, b: int| 0 <= a < b < r.len() implies r[a] != r[b] by {
            lemma_outranks_asymmetric(query, names, r[a] as int, r[b] as int);
        }
    }
}

/// The result of filtering is determined by the query and the names: any two
/// lists that meet the description are the same list.
pub proof fn lemma_filter_result_unique(
    query: Seq<char>,
    names: Seq<Seq<char>>,
    r1: Seq<usize>,
    r2: Seq<usize>,
)
    requires
        is_filter_result(query, names, r1),
        is_filter_result(query, names, r2),
    ensures
        r1 == r2,
{
    if !is_blank_spec(query) {
        let lt = |x: usize, y: usize| outranks(query, names, x as int, y as int);
        assert forall|x: usize, y: usize| #[trigger] lt(x, y) implies !lt(y, x) by {
            lemma_outranks_asymmetric(query, names, x as int, y as int);
        }
        lemma_sorted_unique(lt, r1, r2);
    }
}

/// A fuzzy matcher over application names.
pub struct Search {
    matcher: Matcher,
}

impl Default for Search {
    fn default() -> Search {
        Search::new()
    }
}

impl Search {
    /// A search with a matcher in nucleo's default configuration.
    pub fn new() -> Search {
        Search { matcher: new_matcher() }
    }

    /// Filters `apps` by `query`: all of them in order for a blank query,
    /// otherwise the matching ones, highest score first, ties by name, then
    /// by position.
    pub fn filter(&mut self, query: &str, apps: &[AppEntry]) -> (r: Vec<usize>)
        ensures
            is_filter_result(query@, app_names(apps@), r@),
            filter_returns(query@, app_names(apps@), r@),
    {
        let ghost names = app_names(apps@);
        if is_blank(query) {
            let mut all: Vec<usize> = Vec::new();
            let mut i: usize = 0;
            while i < apps.len()
                invariant
                    i <= apps.len(),
                    all@ == Seq::new(i as nat, |k: int| k as usize),
                decreases apps.len() - i,
            {
                all.push(i);
                i = i + 1;
                assert(all@ =~= Seq::new(i as nat, |k: int| k as usize));
            }
            assert(names.len() == apps@.len());
            proof {
                lemma_filter_result_lowered(query@, names, all@);
            }
            return all;
        }
        let mut hits: Vec<usize> = Vec::new();
        let mut keys: Vec<Vec<u32>> = Vec::new();
        let mut i: usize = 0;
        while i < apps.len()
            invariant
                names == app_names(apps@),
                names.len() == apps@.len(),
                i <= apps.len(),
                keys.len() == i,
                forall|k: int| 0 <= k < hits.len() ==> hits[k] < i,
                forall|a: int, b: int| 0 <= a < b < hits.len() ==> hits[a] < hits[b],
                forall|h: usize| hits@.contains(h) <==> (h < i && is_match(query@, names, h as int)),
                is_ascii_text(query@) ==> forall|h: int|
                    0 <= h < i ==> #[trigger] fuzzy_score(query@, names[h]) == fuzzy_score(
                        ascii_lower(query@),
                        names[h],
                    ),
                forall|h: int|
                    0 <= h < i && is_match(query@, names, h) ==> (#[trigger] keys@[h])@ == search_key(
                        fuzzy_score(query@, names[h])->0,
                        names[h],
                    ),
            decreases apps.len() - i,
        {
            let name = apps[i].name.as_str();
            assert(name@ == names[i as int]);
            let ghost old_hits = hits@;
            match score_name(&mut self.matcher, query, name) {
                Some(s) => {
                    let mut key: Vec<u32> = Vec::new();
                    key.push(u32::MAX - s);
                    let mut rest = char_codes(name);
                    key.append(&mut rest);
                    assert(key@ =~= search_key(s, names[i as int]));
                    keys.push(key);
                    hits.push(i);
                },
                None => {
                    keys.push(Vec::new());
                },
            }
            proof {
                assert forall|h: usize| hits@.contains(h) <==> (h < i + 1 && is_match(
                    query@,
                    names,
                    h as int,
                )) by {
                    if hits@.contains(h) {
                        let k = choose|k: int| 0 <= k < hits@.len() && hits@[k] == h;
                        if k < old_hits.len() {
                            assert(old_hits[k] == h);
                            assert(old_hits.contains(h));
                        }
                    }
                    if h < i + 1 && is_match(query@, names, h as int) {
                        if h < i {
                            assert(old_hits.contains(h));
                            let k = choose|k: int| 0 <= k < old_hits.len() && old_hits[k] == h;
                            assert(hits@[k] == h);
                        } else {
                            assert(hits@[hits@.len() - 1] == h);
                        }
                    }
                }
            }
            i = i + 1;
        }
        let ghost kv = keys.deep_view();
        assert forall|h: int| 0 <= h < keys.len() implies kv[h] == keys@[h]@ by {}
        let out = order_by_key(&hits, &keys);
        assert forall|a: int, b: int| 0 <= a < b < out@.len() implies outranks(
            query@,
            names,
            out@[a] as int,
            out@[b] as int,
        ) by {
            assert(out@.contains(out@[a]));
            assert(out@.contains(out@[b]));
            lemma_search_key_rank(kv, query@, names, out@[a] as int, out@[b] as int);
        }
        proof {
            if is_ascii_text(query@) {
                lemma_filter_result_lowered(query@, names, out@);
            }
        }
        out
    }
}

} // verus!
