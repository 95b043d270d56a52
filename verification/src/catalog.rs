//! The application catalog: its entries, and how a scan's findings become
//! the list the launcher shows.

use vstd::prelude::*;

use crate::order::{
    lex_lt, rank_lt, ranked, order_by_key, lemma_lex_irreflexive, lemma_lex_transitive,
    lemma_lex_total, lemma_lex_asymmetric, lemma_sorted_unique,
};
use crate::paths::{
    path_components, path_key, parts_lt, path_key_of, lemma_path_key_order, file_name_of,
    stem_of_name, extension_of_name, file_name, stem_of, extension_of,
};
use crate::text::{codes, char_codes, text_lt};

verus! {

/// An installed application: the name shown for it and the path of its bundle.
#[derive(Debug)]
pub struct AppEntry {
    pub name: String,
    pub path: String,
}

impl Clone for AppEntry {
    fn clone(&self) -> (copy: AppEntry)
        ensures
            copy == *self,
    {
        AppEntry { name: self.name.clone(), path: self.path.clone() }
    }
}

/// The names of `apps`, in order.
pub open spec fn app_names(apps: Seq<AppEntry>) -> Seq<Seq<char>> {
    apps.map_values(|a: AppEntry| a.name@)
}

/// The lowercase form of `s`, as `str::to_lowercase` maps it (Unicode's
/// lowercase mapping).
pub uninterp spec fn lowercase(s: Seq<char>) -> Seq<char>;

/// Lowercases `s` with `str::to_lowercase`.
#[verifier::external_body]
fn to_lowercase(s: &str) -> (lower: String)
    ensures
        lower@ == lowercase(s@),
{
    s.to_lowercase()
}

/// The key by which the catalog is ordered: the lowercase name, by character.
pub open spec fn name_key(name: Seq<char>) -> Seq<u32> {
    codes(lowercase(name))
}

/// Entry `i` is the first of `entries` with its path (paths being the same
/// when their components are).
pub open spec fn is_first_of_path(entries: Seq<AppEntry>, i: int) -> bool {
    &&& 0 <= i < entries.len()
    &&& forall|m: int|
        0 <= m < i ==> path_components(entries[m].path@) != path_components(entries[i].path@)
}

/// `x` is listed before `y`: by lowercase name, then by path, component by
/// component.
pub open spec fn listed_before(x: AppEntry, y: AppEntry) -> bool {
    ||| text_lt(lowercase(x.name@), lowercase(y.name@))
    ||| lowercase(x.name@) == lowercase(y.name@) && parts_lt(
        path_components(x.path@),
        path_components(y.path@),
    )
}

/// `e` is the entry found first for its path among `entries`.
pub open spec fn is_first_found(entries: Seq<AppEntry>, e: AppEntry) -> bool {
    exists|i: int| is_first_of_path(entries, i) && #[trigger] entries[i] == e
}

/// `out` is the catalog made of the scanned `entries`: one entry per path
/// (the first found), ordered by lowercase name and then by path.
pub open spec fn is_catalog(entries: Seq<AppEntry>, out: Seq<AppEntry>) -> bool {
    &&& forall|k: int| 0 <= k < out.len() ==> is_first_found(entries, #[trigger] out[k])
    &&& forall|i: int| is_first_of_path(entries, i) ==> out.contains(#[trigger] entries[i])
    &&& forall|a: int, b: int| 0 <= a < b < out.len() ==> listed_before(out[a], out[b])
}

/// No entry is listed before itself, and of two entries at most one is
/// listed before the other.
pub proof fn lemma_listed_before_asymmetric(x: AppEntry, y: AppEntry)
    ensures
        listed_before(x, y) ==> !listed_before(y, x),
{
    lemma_lex_asymmetric(name_key(x.name@), name_key(y.name@));
    lemma_lex_asymmetric(path_key(x.path@), path_key(y.path@));
    lemma_lex_irreflexive(name_key(x.name@));
    lemma_path_key_order(x.path@, y.path@);
    lemma_path_key_order(y.path@, x.path@);
}

/// A catalog holds each path once.
pub proof fn lemma_catalog_paths_distinct(entries: Seq<AppEntry>, out: Seq<AppEntry>)
    requires
        is_catalog(entries, out),
    ensures
        forall|a: int, b: int|
            0 <= a < b < out.len() ==> path_components(out[a].path@) != path_components(
                out[b].path@,
            ),
{
    assert forall|a: int, b: int| 0 <= a < b < out.len() implies path_components(out[a].path@)
        != path_components(out[b].path@) by {
        assert(is_first_found(entries, out[a]));
        assert(is_first_found(entries, out[b]));
        let i = choose|i: int| is_first_of_path(entries, i) && #[trigger] entries[i] == out[a];
        let j = choose|j: int| is_first_of_path(entries, j) && #[trigger] entries[j] == out[b];
        if path_components(out[a].path@) == path_components(out[b].path@) {
            if i < j {
                assert(path_components(entries[i].path@) != path_components(entries[j].path@));
            } else if j < i {
                assert(path_components(entries[j].path@) != path_components(entries[i].path@));
            } else {
                lemma_listed_before_asymmetric(out[a], out[b]);
            }
        }
    }
}

/// The catalog made of a scan is determined by what the scan found: any two
/// lists that meet its description are the same list.
pub proof fn lemma_catalog_unique(entries: Seq<AppEntry>, out1: Seq<AppEntry>, out2: Seq<AppEntry>)
    requires
        is_catalog(entries, out1),
        is_catalog(entries, out2),
    ensures
        out1 == out2,
{
    let lt = |x: AppEntry, y: AppEntry| listed_before(x, y);
    assert forall|x: AppEntry, y: AppEntry| #[trigger] lt(x, y) implies !lt(y, x) by {
        lemma_listed_before_asymmetric(x, y);
    }
    assert forall|e: AppEntry| out1.contains(e) <==> out2.contains(e) by {
        if out1.contains(e) {
            let k = choose|k: int| 0 <= k < out1.len() && out1[k] == e;
            assert(is_first_found(entries, out1[k]));
            let i = choose|i: int| is_first_of_path(entries, i) && #[trigger] entries[i] == e;
            assert(out2.contains(entries[i]));
        }
        if out2.contains(e) {
            let k = choose|k: int| 0 <= k < out2.len() && out2[k] == e;
            assert(is_first_found(entries, out2[k]));
            let i = choose|i: int| is_first_of_path(entries, i) && #[trigger] entries[i] == e;
            assert(out1.contains(entries[i]));
        }
    }
    lemma_sorted_unique(lt, out1, out2);
}

/// Making a catalog of a catalog gives it back unchanged: it already holds
/// each path once and is in order.
pub proof fn lemma_catalog_of_catalog(entries: Seq<AppEntry>, out: Seq<AppEntry>)
    requires
        is_catalog(entries, out),
    ensures
        is_catalog(out, out),
{
    lemma_catalog_paths_distinct(entries, out);
    assert forall|k: int| 0 <= k < out.len() implies is_first_found(out, #[trigger] out[k]) by {
        assert(is_first_of_path(out, k));
    }
    assert forall|i: int| is_first_of_path(out, i) implies out.contains(#[trigger] out[i]) by {}
}

/// Between two indices with equal keys, every index ranked in between has
/// that key too.
proof fn lemma_rank_sandwich(keys: Seq<Seq<u32>>, a: int, b: int, c: int)
    requires
        rank_lt(keys, a, b),
        rank_lt(keys, b, c),
        keys[a] == keys[c],
    ensures
        keys[b] == keys[a],
{
    if keys[b] != keys[a] {
        lemma_lex_transitive(keys[a], keys[b], keys[c]);
        lemma_lex_irreflexive(keys[a]);
    }
}

/// In a ranked listing of all indices, an index is the first with its key
/// exactly when the index listed before it has a different key.
proof fn lemma_first_in_ranked(keys: Seq<Seq<u32>>, s: Seq<usize>, p: int)
    requires
        ranked(keys, s),
        s.len() == keys.len(),
        forall|i: usize| s.contains(i) <==> i < keys.len(),
        0 <= p < s.len(),
    ensures
        (p == 0 || keys[s[p - 1] as int] != keys[s[p] as int]) <==> (forall|m: int|
            0 <= m < s[p] ==> #[trigger] keys[m] != keys[s[p] as int]),
{
    let x = s[p] as int;
    assert(s.contains(s[p]));
    if p == 0 || keys[s[p - 1] as int] != keys[x] {
        assert forall|m: int| 0 <= m < x implies keys[m] != keys[x] by {
            if keys[m] == keys[x] {
                assert(s.contains(m as usize));
                let q = choose|q: int| 0 <= q < s.len() && s[q] == m as usize;
                if q > p {
                    assert(rank_lt(keys, x, m));
                    lemma_lex_irreflexive(keys[x]);
                } else if q == p {
                } else if q == p - 1 {
                } else {
                    assert(rank_lt(keys, m, s[p - 1] as int));
                    assert(rank_lt(keys, s[p - 1] as int, x));
                    lemma_rank_sandwich(keys, m, s[p - 1] as int, x);
                }
            }
        }
    } else {
        assert(rank_lt(keys, s[p - 1] as int, x));
        lemma_lex_irreflexive(keys[x]);
        assert(0 <= s[p - 1] < x);
    }
}

/// Whether two keys are equal.
fn same_key(a: &Vec<u32>, b: &Vec<u32>) -> (same: bool)
    ensures
        same == (a@ == b@),
{
    proof {
        lemma_lex_total(a@, b@);
        lemma_lex_irreflexive(a@);
    }
    !crate::order::lex_less(a, b) && !crate::order::lex_less(b, a)
}

/// Turns the applications a scan found into the catalog: duplicates of a path
/// dropped (the first kept), then ordered by lowercase name, equal names by
/// path.
pub fn organize(entries: Vec<AppEntry>) -> (out: Vec<AppEntry>)
    ensures
        is_catalog(entries@, out@),
{
    let n = entries.len();
    let mut pkeys: Vec<Vec<u32>> = Vec::new();
    let mut all: Vec<usize> = Vec::new();
    let mut i: usize = 0;
    while i < n
        invariant
            n == entries.len(),
            i <= n,
            pkeys.len() == i,
            all@ == Seq::new(i as nat, |k: int| k as usize),
            forall|k: int| 0 <= k < i ==> (#[trigger] pkeys@[k])@ == path_key(entries@[k].path@),
        decreases n - i,
    {
        pkeys.push(path_key_of(entries[i].path.as_str()));
        all.push(i);
        i = i + 1;
        assert(all@ =~= Seq::new(i as nat, |k: int| k as usize));
    }
    let ghost pk = pkeys.deep_view();
    assert forall|k: int| 0 <= k < n implies pk[k] == path_key(entries@[k].path@) by {
        assert(pk[k] == pkeys@[k]@);
    }
    assert forall|x: usize| all@.contains(x) <==> x < n by {
        if x < n {
            assert(all@[x as int] == x);
        }
    }
    let by_path = order_by_key(&all, &pkeys);
    // Keep the first of each run of equal paths.
    let mut kept: Vec<usize> = Vec::new();
    let mut p: usize = 0;
    while p < n
        invariant
            n == entries.len(),
            n == pkeys.len(),
            pk == pkeys.deep_view(),
            forall|k: int| 0 <= k < n ==> pk[k] == path_key(entries@[k].path@),
            by_path.len() == n,
            forall|x: usize| by_path@.contains(x) <==> x < n,
            ranked(pk, by_path@),
            p <= n,
            ranked(pk, kept@),
            forall|j: int|
                0 <= j < kept.len() ==> exists|q: int| 0 <= q < p && by_path@[q] == #[trigger] kept@[j],
            forall|x: usize|
                kept@.contains(x) <==> (exists|q: int| 0 <= q < p && by_path@[q] == x)
                    && is_first_of_path(entries@, x as int),
        decreases n - p,
    {
        let x = by_path[p];
        assert(by_path@.contains(x));
        proof {
            if p > 0 {
                assert(by_path@.contains(by_path@[p - 1]));
            }
        }
        let keep = p == 0 || !same_key(&pkeys[by_path[p - 1]], &pkeys[x]);
        proof {
            if p > 0 {
                assert(by_path@.contains(by_path@[p - 1]));
                assert(pk[by_path@[p - 1] as int] == pkeys@[by_path@[p - 1] as int]@);
            }
            assert(pk[x as int] == pkeys@[x as int]@);
            lemma_first_in_ranked(pk, by_path@, p as int);
            if forall|m: int| 0 <= m < x ==> #[trigger] pk[m] != pk[x as int] {
                assert forall|m: int| 0 <= m < x implies path_components(entries@[m].path@)
                    != path_components(entries@[x as int].path@) by {
                    assert(pk[m] != pk[x as int]);
                    lemma_path_key_order(entries@[m].path@, entries@[x as int].path@);
                }
                assert(is_first_of_path(entries@, x as int));
            } else {
                let m = choose|m: int| 0 <= m < x && #[trigger] pk[m] == pk[x as int];
                assert(path_key(entries@[m].path@) == path_key(entries@[x as int].path@));
                lemma_path_key_order(entries@[m].path@, entries@[x as int].path@);
                assert(!is_first_of_path(entries@, x as int));
            }
            assert(keep == is_first_of_path(entries@, x as int));
        }
        let ghost old_kept = kept@;
        if keep {
            proof {
                assert forall|j: int| 0 <= j < old_kept.len() implies rank_lt(
                    pk,
                    old_kept[j] as int,
                    x as int,
                ) by {
                    let q = choose|q: int| 0 <= q < p && by_path@[q] == old_kept[j];
                }
            }
            kept.push(x);
        }
        proof {
            assert forall|j: int| 0 <= j < kept.len() implies exists|q: int|
                0 <= q < p + 1 && by_path@[q] == #[trigger] kept@[j] by {
                if j < old_kept.len() {
                    assert(kept@[j] == old_kept[j]);
                    let q = choose|q: int| 0 <= q < p && by_path@[q] == old_kept[j];
                } else {
                    assert(by_path@[p as int] == kept@[j]);
                }
            }
            assert forall|y: usize| kept@.contains(y) <==> (exists|q: int|
                0 <= q < p + 1 && by_path@[q] == y) && is_first_of_path(entries@, y as int) by {
                if kept@.contains(y) {
                    let j = choose|j: int| 0 <= j < kept.len() && kept@[j] == y;
                    if j < old_kept.len() {
                        assert(old_kept[j] == y);
                        assert(old_kept.contains(y));
                        let q = choose|q: int| 0 <= q < p && by_path@[q] == y;
                        assert(0 <= q < p + 1 && by_path@[q] == y);
                    } else {
                        assert(0 <= p < p + 1 && by_path@[p as int] == y);
                    }
                }
                if (exists|q: int| 0 <= q < p + 1 && by_path@[q] == y) && is_first_of_path(
                    entries@,
                    y as int,
                ) {
                    let q = choose|q: int| 0 <= q < p + 1 && by_path@[q] == y;
                    if q < p {
                        assert(old_kept.contains(y));
                        let j = choose|j: int| 0 <= j < old_kept.len() && old_kept[j] == y;
                        assert(kept@[j] == y);
                    } else {
                        assert(kept@[kept.len() - 1] == y);
                    }
                }
            }
        }
        p = p + 1;
    }
    proof {
        assert forall|x: usize| kept@.contains(x) <==> is_first_of_path(entries@, x as int) by {
            if is_first_of_path(entries@, x as int) {
                assert(by_path@.contains(x));
                let q = choose|q: int| 0 <= q < by_path.len() && by_path@[q] == x;
            }
        }
    }
    // Order the kept entries by lowercase name; equal names keep path order.
    let m = kept.len();
    let mut nkeys: Vec<Vec<u32>> = Vec::new();
    let mut pos: Vec<usize> = Vec::new();
    let mut j: usize = 0;
    while j < m
        invariant
            m == kept.len(),
            n == entries.len(),
            forall|x: usize| kept@.contains(x) <==> is_first_of_path(entries@, x as int),
            j <= m,
            nkeys.len() == j,
            pos@ == Seq::new(j as nat, |k: int| k as usize),
            forall|k: int|
                0 <= k < j ==> (#[trigger] nkeys@[k])@ == name_key(entries@[kept@[k] as int].name@),
        decreases m - j,
    {
        assert(kept@.contains(kept@[j as int]));
        let lower = to_lowercase(entries[kept[j]].name.as_str());
        nkeys.push(char_codes(lower.as_str()));
        pos.push(j);
        j = j + 1;
        assert(pos@ =~= Seq::new(j as nat, |k: int| k as usize));
    }
    let ghost nk = nkeys.deep_view();
    assert forall|k: int| 0 <= k < m implies nk[k] == name_key(entries@[kept@[k] as int].name@) by {
        assert(nk[k] == nkeys@[k]@);
    }
    assert forall|x: usize| pos@.contains(x) <==> x < m by {
        if x < m {
            assert(pos@[x as int] == x);
        }
    }
    let by_name = order_by_key(&pos, &nkeys);
    let mut out: Vec<AppEntry> = Vec::new();
    let mut k: usize = 0;
    while k < m
        invariant
            m == kept.len(),
            n == entries.len(),
            by_name.len() == m,
            forall|x: usize| by_name@.contains(x) <==> x < m,
            forall|x: usize| kept@.contains(x) <==> is_first_of_path(entries@, x as int),
            k <= m,
            out.len() == k,
            forall|t: int|
                0 <= t < k ==> #[trigger] out@[t] == entries@[kept@[by_name@[t] as int] as int],
        decreases m - k,
    {
        assert(by_name@.contains(by_name@[k as int]));
        assert(kept@.contains(kept@[by_name@[k as int] as int]));
        out.push(entries[kept[by_name[k]]].clone());
        k = k + 1;
    }
    proof {
        lemma_catalog_from_rankings(entries@, pk, nk, kept@, by_name@, out@);
    }
    out
}

/// What the catalog is built from: the ranking of all entries by path, the
/// first entry of each path, and the ranking of those by name.
pub open spec fn catalog_parts(
    entries: Seq<AppEntry>,
    pk: Seq<Seq<u32>>,
    nk: Seq<Seq<u32>>,
    kept: Seq<usize>,
    by_name: Seq<usize>,
    out: Seq<AppEntry>,
) -> bool {
    &&& entries.len() <= usize::MAX
    &&& kept.len() <= usize::MAX
    &&& pk.len() == entries.len()
    &&& forall|k: int| 0 <= k < entries.len() ==> #[trigger] pk[k] == path_key(entries[k].path@)
    &&& forall|x: usize| kept.contains(x) <==> is_first_of_path(entries, x as int)
    &&& ranked(pk, kept)
    &&& nk.len() == kept.len()
    &&& forall|k: int| 0 <= k < kept.len() ==> #[trigger] nk[k] == name_key(entries[kept[k] as int].name@)
    &&& by_name.len() == kept.len()
    &&& forall|x: usize| by_name.contains(x) <==> x < kept.len()
    &&& ranked(nk, by_name)
    &&& out.len() == kept.len()
    &&& forall|t: int| 0 <= t < out.len() ==> #[trigger] out[t] == entries[kept[by_name[t] as int] as int]
}

proof fn lemma_catalog_from_rankings(
    entries: Seq<AppEntry>,
    pk: Seq<Seq<u32>>,
    nk: Seq<Seq<u32>>,
    kept: Seq<usize>,
    by_name: Seq<usize>,
    out: Seq<AppEntry>,
)
    requires
        catalog_parts(entries, pk, nk, kept, by_name, out),
    ensures
        is_catalog(entries, out),
{
    lemma_catalog_sources(entries, pk, nk, kept, by_name, out);
    lemma_catalog_complete(entries, pk, nk, kept, by_name, out);
    lemma_catalog_ordered(entries, pk, nk, kept, by_name, out);
}

proof fn lemma_catalog_sources(
    entries: Seq<AppEntry>,
    pk: Seq<Seq<u32>>,
    nk: Seq<Seq<u32>>,
    kept: Seq<usize>,
    by_name: Seq<usize>,
    out: Seq<AppEntry>,
)
    requires
        catalog_parts(entries, pk, nk, kept, by_name, out),
    ensures
        forall|k: int| 0 <= k < out.len() ==> is_first_found(entries, #[trigger] out[k]),
{
    assert forall|t: int| 0 <= t < out.len() implies is_first_found(entries, #[trigger] out[t]) by {
        assert(by_name.contains(by_name[t]));
        assert(kept.contains(kept[by_name[t] as int]));
        let i = kept[by_name[t] as int] as int;
        assert(is_first_of_path(entries, i) && entries[i] == out[t]);
    }
}

proof fn lemma_catalog_complete(
    entries: Seq<AppEntry>,
    pk: Seq<Seq<u32>>,
    nk: Seq<Seq<u32>>,
    kept: Seq<usize>,
    by_name: Seq<usize>,
    out: Seq<AppEntry>,
)
    requires
        catalog_parts(entries, pk, nk, kept, by_name, out),
    ensures
        forall|i: int| is_first_of_path(entries, i) ==> out.contains(#[trigger] entries[i]),
{
    assert forall|i: int| is_first_of_path(entries, i) implies out.contains(#[trigger] entries[i]) by {
        assert(is_first_of_path(entries, (i as usize) as int));
        assert(kept.contains(i as usize));
        let j = choose|j: int| 0 <= j < kept.len() && kept[j] == i as usize;
        assert(by_name.contains(j as usize));
        let t = choose|t: int| 0 <= t < by_name.len() && by_name[t] == j as usize;
        assert(by_name[t] as int == j);
        assert(kept[j] as int == i);
        assert(out[t] == entries[i]);
    }
}

proof fn lemma_catalog_ordered(
    entries: Seq<AppEntry>,
    pk: Seq<Seq<u32>>,
    nk: Seq<Seq<u32>>,
    kept: Seq<usize>,
    by_name: Seq<usize>,
    out: Seq<AppEntry>,
)
    requires
        catalog_parts(entries, pk, nk, kept, by_name, out),
    ensures
        forall|a: int, b: int| 0 <= a < b < out.len() ==> listed_before(out[a], out[b]),
{
    assert forall|a: int, b: int| 0 <= a < b < out.len() implies listed_before(out[a], out[b]) by {
        let ja = by_name[a] as int;
        let jb = by_name[b] as int;
        assert(by_name.contains(by_name[a]));
        assert(by_name.contains(by_name[b]));
        assert(rank_lt(nk, ja, jb));
        let ia = kept[ja] as int;
        let ib = kept[jb] as int;
        assert(kept.contains(kept[ja]));
        assert(kept.contains(kept[jb]));
        assert(0 <= ja < kept.len() && 0 <= jb < kept.len());
        assert(is_first_of_path(entries, ia));
        assert(is_first_of_path(entries, ib));
        assert(out[a] == entries[ia]);
        assert(out[b] == entries[ib]);
        assert(nk[ja] == name_key(entries[ia].name@));
        assert(nk[jb] == name_key(entries[ib].name@));
        if !lex_lt(nk[ja], nk[jb]) {
            assert(nk[ja] == nk[jb] && ja < jb);
            crate::text::lemma_codes_injective(
                lowercase(entries[ia].name@),
                lowercase(entries[ib].name@),
            );
            assert(rank_lt(pk, kept[ja] as int, kept[jb] as int));
            assert(pk[ia] == path_key(entries[ia].path@));
            assert(pk[ib] == path_key(entries[ib].path@));
            lemma_path_key_order(entries[ia].path@, entries[ib].path@);
            if pk[ia] == pk[ib] {
                lemma_lex_irreflexive(pk[ia]);
                assert(ia < ib);
                assert(path_components(entries[ia].path@) != path_components(entries[ib].path@));
            }
            assert(lex_lt(pk[ia], pk[ib]));
        }
    }
}

#[verifier::external_type_specification]
#[verifier::external_body]
pub struct ExPlistDictionary(plist::Dictionary);

/// The contents of a property-list dictionary as far as names are read from
/// it: each key mapped to its text where the value is a string, and to none
/// where it is a value of another kind.
pub uninterp spec fn dictionary_strings(d: plist::Dictionary) -> Map<Seq<char>, Option<Seq<char>>>;

/// The top-level dictionary of the property list encoded in `bytes` (any of
/// the encodings `plist::Value::from_reader` reads), by its string entries;
/// none when the bytes are no property list or its top level is no dictionary.
pub uninterp spec fn plist_dictionary(bytes: Seq<u8>) -> Option<Map<Seq<char>, Option<Seq<char>>>>;

/// Parses `bytes` with `plist::Value::from_reader` and keeps the value if it
/// is a dictionary. The claim is that what it returns is the parse named by
/// `plist_dictionary`.
#[verifier::external_body]
fn parse_plist_dictionary(bytes: &[u8]) -> (dict: Option<plist::Dictionary>)
    ensures
        dict is Some == plist_dictionary(bytes@) is Some,
        dict matches Some(d) ==> dictionary_strings(d) == plist_dictionary(bytes@)->0,
{
    match plist::Value::from_reader(std::io::Cursor::new(bytes)) {
        Ok(plist::Value::Dictionary(d)) => Some(d),
        _ => None,
    }
}

/// Looks `key` up with `plist::Dictionary::get` and returns the text of the
/// value if it is a string (what `plist::Value::as_string` tests).
#[verifier::external_body]
fn dictionary_string(d: &plist::Dictionary, key: &str) -> (text: Option<String>)
    ensures
        text is Some == (dictionary_strings(*d).contains_key(key@) && dictionary_strings(
            *d,
        )[key@] is Some),
        text matches Some(t) ==> dictionary_strings(*d)[key@] == Some(t@),
{
    match d.get(key) {
        Some(plist::Value::String(s)) => Some(s.clone()),
        _ => None,
    }
}

/// The string stored under `key`, if any.
pub open spec fn string_at(strings: Map<Seq<char>, Option<Seq<char>>>, key: Seq<char>) -> Option<
    Seq<char>,
> {
    if strings.contains_key(key) {
        strings[key]
    } else {
        None
    }
}

/// The name a bundle's information dictionary gives it: the display name if
/// the dictionary has a string there, else the bundle name if it has one;
/// the stem whenever the chosen string is empty, none is found, or there is
/// no dictionary.
pub open spec fn bundle_name(stem: Seq<char>, strings: Option<Map<Seq<char>, Option<Seq<char>>>>) -> Seq<
    char,
> {
    match strings {
        None => stem,
        Some(m) => {
            let found = if string_at(m, "CFBundleDisplayName"@) is Some {
                string_at(m, "CFBundleDisplayName"@)
            } else {
                string_at(m, "CFBundleName"@)
            };
            if found is Some && found->0.len() > 0 {
                found->0
            } else {
                stem
            }
        },
    }
}

/// The stem of the bundle's file name (empty if it has none).
pub open spec fn bundle_stem(bundle: Seq<char>) -> Seq<char> {
    match file_name(bundle) {
        Some(n) => stem_of(n),
        None => Seq::empty(),
    }
}

/// The name to show for the application bundle at `bundle`, from the bytes of
/// its `Contents/Info.plist` if they could be read.
pub fn display_name(bundle: &str, info: Option<&[u8]>) -> (name: String)
    ensures
        name@ == match info {
            Some(bytes) => bundle_name(bundle_stem(bundle@), plist_dictionary(bytes@)),
            None => bundle_stem(bundle@),
        },
{
    let stem = match file_name_of(bundle) {
        Some(n) => stem_of_name(n.as_str()),
        None => String::new(),
    };
    let bytes = match info {
        Some(b) => b,
        None => {
            return stem;
        },
    };
    let dict = match parse_plist_dictionary(bytes) {
        Some(d) => d,
        None => {
            return stem;
        },
    };
    let found = match dictionary_string(&dict, "CFBundleDisplayName") {
        Some(n) => Some(n),
        None => dictionary_string(&dict, "CFBundleName"),
    };
    match found {
        Some(n) => {
            if n.as_str().is_empty() {
                stem
            } else {
                n
            }
        },
        None => stem,
    }
}

/// What a scan does with a directory entry.
#[derive(Debug, PartialEq, Eq, Structural)]
pub enum EntryKind {
    /// Not an application and not searched.
    Skip,
    /// An application bundle.
    Bundle,
    /// A directory to search for bundles.
    Descend,
}

/// Whether the file name of `path` has the extension `app`.
pub open spec fn has_app_extension(path: Seq<char>) -> bool {
    file_name(path) is Some && extension_of(file_name(path)->0) == Some("app"@)
}

/// How a scan treats the entry at `path`: a directory whose name ends in
/// `.app` is a bundle; another directory is searched while `depth` allows;
/// anything else is skipped.
pub open spec fn entry_kind(is_dir: bool, path: Seq<char>, depth: u32) -> EntryKind {
    if !is_dir {
        EntryKind::Skip
    } else if has_app_extension(path) {
        EntryKind::Bundle
    } else if depth > 0 {
        EntryKind::Descend
    } else {
        EntryKind::Skip
    }
}

/// Decides what a scan does with the entry at `path`, found `depth` levels
/// above the deepest level searched.
pub fn classify_entry(is_dir: bool, path: &str, depth: u32) -> (kind: EntryKind)
    ensures
        kind == entry_kind(is_dir, path@, depth),
{
    if !is_dir {
        return EntryKind::Skip;
    }
    let is_app = match file_name_of(path) {
        Some(n) => match extension_of_name(n.as_str()) {
            Some(e) => crate::text::same_text(e.as_str(), "app"),
            None => false,
        },
        None => false,
    };
    if is_app {
        EntryKind::Bundle
    } else if depth > 0 {
        EntryKind::Descend
    } else {
        EntryKind::Skip
    }
}

/// Only directories are ever bundles or searched: an entry that is not a
/// directory is skipped. A directory named `*.app` is a bundle; another
/// directory is searched while depth remains and skipped at the last level.
pub proof fn lemma_entry_kind(is_dir: bool, path: Seq<char>, depth: u32)
    ensures
        !is_dir ==> entry_kind(is_dir, path, depth) == EntryKind::Skip,
        entry_kind(is_dir, path, depth) == EntryKind::Bundle <==> is_dir && has_app_extension(path),
        entry_kind(is_dir, path, depth) == EntryKind::Descend <==> is_dir && !has_app_extension(path)
            && depth > 0,
        is_dir && !has_app_extension(path) && depth == 0 ==> entry_kind(is_dir, path, depth)
            == EntryKind::Skip,
{
}

} // verus!
