//! Lexicographic order on keys, and a stable ordering of indices by key.

use vstd::prelude::*;

verus! {

/// Strict lexicographic order on sequences of numbers: the first position at
/// which the two differ decides, and a proper prefix comes first.
pub open spec fn lex_lt(a: Seq<u32>, b: Seq<u32>) -> bool
    decreases a.len(),
{
    if b.len() == 0 {
        false
    } else if a.len() == 0 {
        true
    } else if a[0] != b[0] {
        a[0] < b[0]
    } else {
        lex_lt(a.drop_first(), b.drop_first())
    }
}

/// Index `i` comes before index `j` when its key is smaller, or when the two
/// keys are equal and `i` is the smaller index (a stable order).
pub open spec fn rank_lt(keys: Seq<Seq<u32>>, i: int, j: int) -> bool {
    lex_lt(keys[i], keys[j]) || (keys[i] == keys[j] && i < j)
}

/// `s` lists indices in strictly increasing rank.
pub open spec fn ranked(keys: Seq<Seq<u32>>, s: Seq<usize>) -> bool {
    forall|a: int, b: int| 0 <= a < b < s.len() ==> rank_lt(keys, s[a] as int, s[b] as int)
}

pub proof fn lemma_lex_irreflexive(a: Seq<u32>)
    ensures
        !lex_lt(a, a),
    decreases a.len(),
{
    if a.len() > 0 {
        lemma_lex_irreflexive(a.drop_first());
    }
}

pub proof fn lemma_lex_asymmetric(a: Seq<u32>, b: Seq<u32>)
    ensures
        lex_lt(a, b) ==> !lex_lt(b, a),
    decreases a.len(),
{
    if a.len() > 0 && b.len() > 0 && a[0] == b[0] {
        lemma_lex_asymmetric(a.drop_first(), b.drop_first());
    }
}

pub proof fn lemma_lex_transitive(a: Seq<u32>, b: Seq<u32>, c: Seq<u32>)
    requires
        lex_lt(a, b),
        lex_lt(b, c),
    ensures
        lex_lt(a, c),
    decreases a.len(),
{
    if a.len() > 0 && b.len() > 0 && c.len() > 0 && a[0] == b[0] && b[0] == c[0] {
        lemma_lex_transitive(a.drop_first(), b.drop_first(), c.drop_first());
    }
}

pub proof fn lemma_lex_total(a: Seq<u32>, b: Seq<u32>)
    ensures
        a == b || lex_lt(a, b) || lex_lt(b, a),
    decreases a.len(),
{
    if a.len() > 0 && b.len() > 0 && a[0] == b[0] {
        lemma_lex_total(a.drop_first(), b.drop_first());
        if a.drop_first() == b.drop_first() {
            assert(a =~= seq![a[0]] + a.drop_first());
            assert(b =~= seq![b[0]] + b.drop_first());
        }
    } else if a.len() == 0 && b.len() == 0 {
        assert(a =~= b);
    }
}

/// Two sequences that agree up to `k` compare as their tails from `k` do.
proof fn lemma_lex_skip(a: Seq<u32>, b: Seq<u32>, k: int)
    requires
        0 <= k <= a.len(),
        k <= b.len(),
        a.take(k) == b.take(k),
    ensures
        lex_lt(a, b) == lex_lt(a.skip(k), b.skip(k)),
    decreases k,
{
    if k > 0 {
        assert(a[0] == a.take(k)[0]);
        assert(b[0] == b.take(k)[0]);
        assert(a.drop_first().take(k - 1) =~= a.take(k).drop_first());
        assert(b.drop_first().take(k - 1) =~= b.take(k).drop_first());
        lemma_lex_skip(a.drop_first(), b.drop_first(), k - 1);
        assert(a.drop_first().skip(k - 1) =~= a.skip(k));
        assert(b.drop_first().skip(k - 1) =~= b.skip(k));
    } else {
        assert(a.skip(0) =~= a);
        assert(b.skip(0) =~= b);
    }
}

pub proof fn lemma_rank_transitive(keys: Seq<Seq<u32>>, i: int, j: int, k: int)
    requires
        rank_lt(keys, i, j),
        rank_lt(keys, j, k),
    ensures
        rank_lt(keys, i, k),
{
    if lex_lt(keys[i], keys[j]) && lex_lt(keys[j], keys[k]) {
        lemma_lex_transitive(keys[i], keys[j], keys[k]);
    }
}

pub proof fn lemma_rank_total(keys: Seq<Seq<u32>>, i: int, j: int)
    requires
        i != j,
    ensures
        rank_lt(keys, i, j) || rank_lt(keys, j, i),
{
    lemma_lex_total(keys[i], keys[j]);
}

/// Two lists, each strictly ordered by the same asymmetric relation and
/// holding the same items, are the same list.
pub proof fn lemma_sorted_unique<T>(lt: spec_fn(T, T) -> bool, r1: Seq<T>, r2: Seq<T>)
    requires
        forall|a: int, b: int| 0 <= a < b < r1.len() ==> lt(r1[a], r1[b]),
        forall|a: int, b: int| 0 <= a < b < r2.len() ==> lt(r2[a], r2[b]),
        forall|x: T| r1.contains(x) <==> r2.contains(x),
        forall|x: T, y: T| #[trigger] lt(x, y) ==> !lt(y, x),
    ensures
        r1 == r2,
    decreases r1.len(),
{
    if r1.len() == 0 {
        if r2.len() > 0 {
            assert(r2.contains(r2[0]));
        }
        assert(r1 =~= r2);
    } else if r2.len() == 0 {
        assert(r1.contains(r1[0]));
    } else {
        let x = r1[0];
        let y = r2[0];
        assert(r1.contains(x));
        assert(r2.contains(y));
        if x != y {
            let k = choose|k: int| 0 <= k < r1.len() && r1[k] == y;
            let j = choose|j: int| 0 <= j < r2.len() && r2[j] == x;
            assert(lt(x, y));
            assert(lt(y, x));
        }
        let t1 = r1.drop_first();
        let t2 = r2.drop_first();
        assert forall|z: T| t1.contains(z) <==> t2.contains(z) by {
            if t1.contains(z) {
                let k = choose|k: int| 0 <= k < t1.len() && t1[k] == z;
                assert(r1[k + 1] == z);
                assert(r1.contains(z));
                if z == x {
                    assert(lt(r1[0], r1[k + 1]));
                }
                let j = choose|j: int| 0 <= j < r2.len() && r2[j] == z;
                assert(j != 0);
                assert(t2[j - 1] == z);
            }
            if t2.contains(z) {
                let k = choose|k: int| 0 <= k < t2.len() && t2[k] == z;
                assert(r2[k + 1] == z);
                assert(r2.contains(z));
                if z == y {
                    assert(lt(r2[0], r2[k + 1]));
                }
                let j = choose|j: int| 0 <= j < r1.len() && r1[j] == z;
                assert(j != 0);
                assert(t1[j - 1] == z);
            }
        }
        assert forall|a: int, b: int| 0 <= a < b < t1.len() implies lt(t1[a], t1[b]) by {
            assert(lt(r1[a + 1], r1[b + 1]));
        }
        assert forall|a: int, b: int| 0 <= a < b < t2.len() implies lt(t2[a], t2[b]) by {
            assert(lt(r2[a + 1], r2[b + 1]));
        }
        lemma_sorted_unique(lt, t1, t2);
        assert(r1 =~= seq![x] + t1);
        assert(r2 =~= seq![y] + t2);
    }
}

/// Compares two keys lexicographically.
pub fn lex_less(a: &Vec<u32>, b: &Vec<u32>) -> (less: bool)
    ensures
        less == lex_lt(a@, b@),
{
    let mut k: usize = 0;
    while k < a.len() && k < b.len()
        invariant
            k <= a.len(),
            k <= b.len(),
            a@.take(k as int) == b@.take(k as int),
        decreases a.len() - k,
    {
        if a[k] != b[k] {
            proof {
                lemma_lex_skip(a@, b@, k as int);
                assert(a@.skip(k as int)[0] == a@[k as int]);
                assert(b@.skip(k as int)[0] == b@[k as int]);
            }
            return a[k] < b[k];
        }
        assert(a@.take(k + 1) =~= a@.take(k as int).push(a@[k as int]));
        assert(b@.take(k + 1) =~= b@.take(k as int).push(b@[k as int]));
        k = k + 1;
    }
    proof {
        lemma_lex_skip(a@, b@, k as int);
    }
    k < b.len()
}

/// Orders the distinct indices `items` by rank: by key, ties kept in index order.
pub fn order_by_key(items: &Vec<usize>, keys: &Vec<Vec<u32>>) -> (out: Vec<usize>)
    requires
        forall|k: int| 0 <= k < items.len() ==> items[k] < keys.len(),
        forall|a: int, b: int| 0 <= a < b < items.len() ==> items[a] != items[b],
    ensures
        out.len() == items.len(),
        forall|i: usize| out@.contains(i) <==> items@.contains(i),
        ranked(keys.deep_view(), out@),
{
    let ghost kv = keys.deep_view();
    let mut out: Vec<usize> = Vec::new();
    let mut n: usize = 0;
    while n < items.len()
        invariant
            kv == keys.deep_view(),
            n <= items.len(),
            out.len() == n,
            forall|k: int| 0 <= k < items.len() ==> items[k] < keys.len(),
            forall|a: int, b: int| 0 <= a < b < items.len() ==> items[a] != items[b],
            forall|i: usize| out@.contains(i) <==> items@.take(n as int).contains(i),
            forall|q: int| 0 <= q < out.len() ==> out[q] < keys.len(),
            ranked(kv, out@),
        decreases items.len() - n,
    {
        let x = items[n];
        let mut p: usize = 0;
        while p < out.len() && !rank_less(keys, x, out[p])
            invariant
                kv == keys.deep_view(),
                p <= out.len(),
                x < keys.len(),
                forall|q: int| 0 <= q < out.len() ==> out[q] < keys.len(),
                forall|q: int| 0 <= q < p ==> !rank_lt(kv, x as int, #[trigger] out@[q] as int),
            decreases out.len() - p,
        {
            p = p + 1;
        }
        proof {
            assert(!out@.contains(x)) by {
                if out@.contains(x) {
                    let q = choose|q: int| 0 <= q < out.len() && out@[q] == x;
                    assert(items@.take(n as int).contains(x));
                    let m = choose|m: int| 0 <= m < n && items@.take(n as int)[m] == x;
                    assert(items@[m] == items@[n as int]);
                }
            }
        }
        let ghost old_out = out@;
        out.insert(p, x);
        proof {
            assert(out@ =~= old_out.take(p as int).push(x) + old_out.skip(p as int));
            assert forall|a: int, b: int| 0 <= a < b < out@.len() implies rank_lt(
                kv,
                out@[a] as int,
                out@[b] as int,
            ) by {
                if b < p {
                } else if a < p && b == p {
                    assert(!rank_lt(kv, x as int, old_out[a] as int));
                    assert(old_out[a] != x);
                    lemma_rank_total(kv, x as int, old_out[a] as int);
                } else if a < p && b > p {
                } else if a == p {
                    assert(rank_lt(kv, x as int, old_out[p as int] as int));
                    if b - 1 > p {
                        lemma_rank_transitive(
                            kv,
                            x as int,
                            old_out[p as int] as int,
                            old_out[b - 1] as int,
                        );
                    }
                } else {
                }
            }
            let ghost t0 = items@.take(n as int);
            let ghost t1 = items@.take(n + 1);
            assert(t1 =~= t0.push(x));
            assert forall|i: usize| out@.contains(i) implies t1.contains(i) by {
                let q = choose|q: int| 0 <= q < out@.len() && out@[q] == i;
                if q < p {
                    assert(old_out[q] == i);
                    assert(old_out.contains(i));
                    assert(t0.contains(i));
                    let m = choose|m: int| 0 <= m < t0.len() && t0[m] == i;
                    assert(t1[m] == i);
                } else if q > p {
                    assert(old_out[q - 1] == i);
                    assert(old_out.contains(i));
                    assert(t0.contains(i));
                    let m = choose|m: int| 0 <= m < t0.len() && t0[m] == i;
                    assert(t1[m] == i);
                } else {
                    assert(t1[n as int] == i);
                }
            }
            assert forall|i: usize| t1.contains(i) implies out@.contains(i) by {
                let m = choose|m: int| 0 <= m < t1.len() && t1[m] == i;
                if m < n {
                    assert(t0[m] == i);
                    assert(t0.contains(i));
                    assert(old_out.contains(i));
                    let q = choose|q: int| 0 <= q < old_out.len() && old_out[q] == i;
                    if q < p {
                        assert(out@[q] == i);
                    } else {
                        assert(out@[q + 1] == i);
                    }
                } else {
                    assert(out@[p as int] == i);
                }
            }
            assert forall|q: int| 0 <= q < out.len() implies out[q] < keys.len() by {
                if q < p {
                    assert(out[q] == old_out[q]);
                } else if q > p {
                    assert(out[q] == old_out[q - 1]);
                }
            }
        }
        n = n + 1;
    }
    assert(items@.take(n as int) =~= items@);
    out
}

/// Whether index `i` ranks before index `j`.
fn rank_less(keys: &Vec<Vec<u32>>, i: usize, j: usize) -> (less: bool)
    requires
        i < keys.len(),
        j < keys.len(),
    ensures
        less == rank_lt(keys.deep_view(), i as int, j as int),
{
    let ki = &keys[i];
    let kj = &keys[j];
    assert(keys.deep_view()[i as int] == ki@);
    assert(keys.deep_view()[j as int] == kj@);
    if lex_less(ki, kj) {
        true
    } else {
        proof {
            lemma_lex_total(ki@, kj@);
        }
        i < j && !lex_less(kj, ki)
    }
}

} // verus!
