//! The ranker: scores a candidate list against a query and orders it.
//!
//! Every candidate is scored against the query (on its bare name, with any
//! `repository/` prefix stripped); candidates whose score does not exceed
//! the minimum are dropped — in particular every candidate the locator
//! rejected, which scores 0.  The rest are sorted by descending score with
//! a stable tie-break (equal scores keep their input order) and truncated
//! to the result budget.

use vstd::prelude::*;

use crate::normalize::{pure_name, pure_name_spec};
use crate::score::{fuzzy_match, fuzzy_match_spec, lemma_fuzzy_match_bounds};

verus! {

/// One candidate from a package listing, with the score the ranker gave it.
pub struct Package {
    pub provider: String,
    pub name: String,
    pub version: String,
    pub description: String,
    pub score: i64,
}

/// `p` with its score recomputed against `q`: the end-to-end fuzzy score
/// of `q` against the bare name of `p`.
pub open spec fn rescored(p: Package, q: Seq<char>) -> Package {
    Package { score: fuzzy_match_spec(q, pure_name_spec(p.name@)) as i64, ..p }
}

/// The candidates among the first `n` whose recomputed score exceeds
/// `min`, each paired with its input position, in input order.
pub open spec fn kept_pairs(cands: Seq<Package>, q: Seq<char>, min: int, n: int) -> Seq<
    (usize, Package),
>
    decreases n,
{
    if n <= 0 {
        Seq::empty()
    } else {
        let prev = kept_pairs(cands, q, min, n - 1);
        let p = rescored(cands[n - 1], q);
        if p.score > min {
            prev.push(((n - 1) as usize, p))
        } else {
            prev
        }
    }
}

/// Ranking order on (input position, candidate) pairs: higher score first,
/// and, for equal scores, lower input position first.
pub open spec fn pair_le(a: (usize, Package), b: (usize, Package)) -> bool {
    a.1.score > b.1.score || (a.1.score == b.1.score && a.0 <= b.0)
}

/// Inserts `x` behind every pair that ranks at or before it, so equal
/// scores keep their input order.
pub open spec fn insert_pair(s: Seq<(usize, Package)>, x: (usize, Package)) -> Seq<
    (usize, Package),
>
    decreases s.len(),
{
    if s.len() == 0 {
        seq![x]
    } else if pair_le(s[0], x) {
        seq![s[0]] + insert_pair(s.drop_first(), x)
    } else {
        seq![x] + s
    }
}

/// Insertion sort of the pairs under `pair_le`.
pub open spec fn sort_pairs(s: Seq<(usize, Package)>) -> Seq<(usize, Package)>
    decreases s.len(),
{
    if s.len() == 0 {
        Seq::empty()
    } else {
        insert_pair(sort_pairs(s.drop_last()), s.last())
    }
}

pub open spec fn sorted_pairs(s: Seq<(usize, Package)>) -> bool {
    forall|k: int, l: int| 0 <= k < l < s.len() ==> pair_le(#[trigger] s[k], #[trigger] s[l])
}

/// The scored, filtered and stably sorted candidate list, still paired
/// with input positions.
pub open spec fn ranked_pairs_spec(cands: Seq<Package>, q: Seq<char>, min: int) -> Seq<
    (usize, Package),
> {
    sort_pairs(kept_pairs(cands, q, min, cands.len() as int))
}

/// The candidates of a pair list, with the input positions dropped.
pub open spec fn strip_pairs(s: Seq<(usize, Package)>) -> Seq<Package> {
    s.map_values(|p: (usize, Package)| p.1)
}

/// What `rank` returns: the ranked candidates, truncated to at most `max`.
pub open spec fn rank_spec(cands: Seq<Package>, q: Seq<char>, min: int, max: int) -> Seq<Package> {
    let full = strip_pairs(ranked_pairs_spec(cands, q, min));
    if max < full.len() {
        full.take(max)
    } else {
        full
    }
}

/// Every kept pair records its input position, carries that candidate
/// rescored, exceeds the threshold, and positions are strictly increasing.
pub proof fn lemma_kept_pairs_elems(cands: Seq<Package>, q: Seq<char>, min: int, n: int)
    requires
        0 <= n <= cands.len(),
        n <= usize::MAX,
    ensures
        kept_pairs(cands, q, min, n).len() <= n,
        forall|i: int|
            0 <= i < kept_pairs(cands, q, min, n).len() ==> {
                let p = #[trigger] kept_pairs(cands, q, min, n)[i];
                &&& 0 <= p.0 < n
                &&& p.1 == rescored(cands[p.0 as int], q)
                &&& p.1.score > min
            },
        forall|i: int, j: int|
            0 <= i < j < kept_pairs(cands, q, min, n).len() ==> (#[trigger] kept_pairs(
                cands,
                q,
                min,
                n,
            )[i]).0 < (#[trigger] kept_pairs(cands, q, min, n)[j]).0,
    decreases n,
{
    if n > 0 {
        lemma_kept_pairs_elems(cands, q, min, n - 1);
        let prev = kept_pairs(cands, q, min, n - 1);
        let s = kept_pairs(cands, q, min, n);
        let p = rescored(cands[n - 1], q);
        if p.score > min {
            assert(s == prev.push(((n - 1) as usize, p)));
            assert(forall|i: int| 0 <= i < prev.len() ==> #[trigger] s[i] == prev[i]);
            assert(s[s.len() - 1] == ((n - 1) as usize, p));
        } else {
            assert(s == prev);
        }
    }
}

/// Every candidate above the threshold appears among the kept pairs.
pub proof fn lemma_kept_pairs_complete(cands: Seq<Package>, q: Seq<char>, min: int, n: int, j: int)
    requires
        0 <= j < n <= cands.len(),
        rescored(cands[j], q).score > min,
    ensures
        exists|i: int|
            0 <= i < kept_pairs(cands, q, min, n).len() && #[trigger] kept_pairs(
                cands,
                q,
                min,
                n,
            )[i] == (j as usize, rescored(cands[j], q)),
    decreases n,
{
    let s = kept_pairs(cands, q, min, n);
    if j == n - 1 {
        assert(s[s.len() - 1] == (j as usize, rescored(cands[j], q)));
    } else {
        lemma_kept_pairs_complete(cands, q, min, n - 1, j);
        let prev = kept_pairs(cands, q, min, n - 1);
        let i = choose|i: int|
            0 <= i < prev.len() && #[trigger] prev[i] == (j as usize, rescored(cands[j], q));
        assert(s[i] == (j as usize, rescored(cands[j], q)));
    }
}

/// A property that holds of every inserted pair still holds of every pair
/// after an insertion.
pub proof fn lemma_insert_pair_pred(
    s: Seq<(usize, Package)>,
    x: (usize, Package),
    pred: spec_fn((usize, Package)) -> bool,
)
    requires
        forall|i: int| 0 <= i < s.len() ==> pred(#[trigger] s[i]),
        pred(x),
    ensures
        insert_pair(s, x).len() == s.len() + 1,
        forall|i: int| 0 <= i < insert_pair(s, x).len() ==> pred(#[trigger] insert_pair(s, x)[i]),
    decreases s.len(),
{
    let out = insert_pair(s, x);
    if s.len() == 0 {
        assert(out[0] == x);
    } else if pair_le(s[0], x) {
        assert(forall|k: int| 0 <= k < s.drop_first().len() ==> #[trigger] s.drop_first()[k] == s[k
            + 1]);
        lemma_insert_pair_pred(s.drop_first(), x, pred);
        let rec = insert_pair(s.drop_first(), x);
        assert(out == seq![s[0]] + rec);
        assert(out[0] == s[0]);
        assert(forall|i: int| 1 <= i < out.len() ==> #[trigger] out[i] == rec[i - 1]);
    } else {
        assert(out == seq![x] + s);
        assert(out[0] == x);
        assert(forall|i: int| 1 <= i < out.len() ==> #[trigger] out[i] == s[i - 1]);
    }
}

/// Whatever the pairs held before an insertion they hold after it, and the
/// inserted pair is among them.
pub proof fn lemma_insert_pair_contains(s: Seq<(usize, Package)>, x: (usize, Package))
    ensures
        insert_pair(s, x).contains(x),
        forall|y: (usize, Package)| s.contains(y) ==> insert_pair(s, x).contains(y),
    decreases s.len(),
{
    let out = insert_pair(s, x);
    if s.len() == 0 {
        assert(out[0] == x);
    } else if pair_le(s[0], x) {
        lemma_insert_pair_contains(s.drop_first(), x);
        let rec = insert_pair(s.drop_first(), x);
        assert(out == seq![s[0]] + rec);
        assert(forall|i: int| 0 <= i < rec.len() ==> #[trigger] out[i + 1] == rec[i]);
        let ix = choose|i: int| 0 <= i < rec.len() && rec[i] == x;
        assert(out[ix + 1] == x);
        assert forall|y: (usize, Package)| s.contains(y) implies out.contains(y) by {
            let j = choose|j: int| 0 <= j < s.len() && s[j] == y;
            if j == 0 {
                assert(out[0] == y);
            } else {
                assert(s.drop_first()[j - 1] == y);
                assert(s.drop_first().contains(y));
                assert(rec.contains(y));
                let i = choose|i: int| 0 <= i < rec.len() && rec[i] == y;
                assert(out[i + 1] == y);
            }
        }
    } else {
        assert(out == seq![x] + s);
        assert(out[0] == x);
        assert forall|y: (usize, Package)| s.contains(y) implies out.contains(y) by {
            let j = choose|j: int| 0 <= j < s.len() && s[j] == y;
            assert(out[j + 1] == y);
        }
    }
}

/// Inserting under `pair_le` keeps the pairs sorted.
pub proof fn lemma_insert_pair_sorted(s: Seq<(usize, Package)>, x: (usize, Package))
    requires
        sorted_pairs(s),
    ensures
        sorted_pairs(insert_pair(s, x)),
    decreases s.len(),
{
    let out = insert_pair(s, x);
    if s.len() == 0 {
    } else if pair_le(s[0], x) {
        assert(forall|k: int| 0 <= k < s.drop_first().len() ==> #[trigger] s.drop_first()[k] == s[k
            + 1]);
        lemma_insert_pair_sorted(s.drop_first(), x);
        lemma_insert_pair_pred(s.drop_first(), x, |y: (usize, Package)| pair_le(s[0], y));
        let rec = insert_pair(s.drop_first(), x);
        assert(out == seq![s[0]] + rec);
        assert(forall|i: int| 1 <= i < out.len() ==> #[trigger] out[i] == rec[i - 1]);
        assert forall|k: int, l: int| 0 <= k < l < out.len() implies pair_le(
            #[trigger] out[k],
            #[trigger] out[l],
        ) by {
            if k == 0 {
                assert(pair_le(s[0], rec[l - 1]));
            } else {
                assert(out[k] == rec[k - 1] && out[l] == rec[l - 1]);
            }
        }
    } else {
        assert(out == seq![x] + s);
        assert(forall|i: int| 1 <= i < out.len() ==> #[trigger] out[i] == s[i - 1]);
        assert(pair_le(x, s[0]));
        assert forall|k: int, l: int| 0 <= k < l < out.len() implies pair_le(
            #[trigger] out[k],
            #[trigger] out[l],
        ) by {
            if k == 0 && l >= 2 {
                assert(pair_le(s[0], s[l - 1]));
            }
        }
    }
}

/// Sorting keeps every property that held of all the pairs.
pub proof fn lemma_sort_pairs_pred(s: Seq<(usize, Package)>, pred: spec_fn((usize, Package)) -> bool)
    requires
        forall|i: int| 0 <= i < s.len() ==> pred(#[trigger] s[i]),
    ensures
        sort_pairs(s).len() == s.len(),
        forall|i: int| 0 <= i < sort_pairs(s).len() ==> pred(#[trigger] sort_pairs(s)[i]),
    decreases s.len(),
{
    if s.len() > 0 {
        let prev = s.drop_last();
        assert(forall|i: int| 0 <= i < prev.len() ==> #[trigger] prev[i] == s[i]);
        lemma_sort_pairs_pred(prev, pred);
        lemma_insert_pair_pred(sort_pairs(prev), s.last(), pred);
    }
}

/// The sorted pairs are sorted and still hold every pair that went in.
pub proof fn lemma_sort_pairs_props(s: Seq<(usize, Package)>)
    ensures
        sort_pairs(s).len() == s.len(),
        sorted_pairs(sort_pairs(s)),
        forall|y: (usize, Package)| s.contains(y) ==> sort_pairs(s).contains(y),
    decreases s.len(),
{
    lemma_sort_pairs_pred(s, |y: (usize, Package)| true);
    if s.len() > 0 {
        let prev = s.drop_last();
        lemma_sort_pairs_props(prev);
        lemma_insert_pair_sorted(sort_pairs(prev), s.last());
        lemma_insert_pair_contains(sort_pairs(prev), s.last());
        let out = sort_pairs(s);
        assert(forall|j: int| 0 <= j < prev.len() ==> #[trigger] prev[j] == s[j]);
        assert forall|y: (usize, Package)| s.contains(y) implies out.contains(y) by {
            let j = choose|j: int| 0 <= j < s.len() && s[j] == y;
            if j == s.len() - 1 {
                assert(y == s.last());
            } else {
                assert(prev[j] == y);
                assert(prev.contains(y));
                assert(sort_pairs(prev).contains(y));
            }
        }
    }
}

/// Law: ranked candidates come out in descending score order.
pub proof fn lemma_rank_sorted(cands: Seq<Package>, q: Seq<char>, min: int, max: int)
    requires
        0 <= max,
    ensures
        forall|k: int, l: int|
            0 <= k < l < rank_spec(cands, q, min, max).len() ==> (#[trigger] rank_spec(
                cands,
                q,
                min,
                max,
            )[k]).score >= (#[trigger] rank_spec(cands, q, min, max)[l]).score,
{
    let kept = kept_pairs(cands, q, min, cands.len() as int);
    lemma_sort_pairs_props(kept);
    let sorted = sort_pairs(kept);
    let full = strip_pairs(sorted);
    assert(full.len() == sorted.len());
    assert(forall|k: int| 0 <= k < full.len() ==> #[trigger] full[k] == sorted[k].1);
    let r = rank_spec(cands, q, min, max);
    assert(r.len() <= full.len());
    assert(forall|k: int| 0 <= k < r.len() ==> #[trigger] r[k] == full[k]);
    assert forall|k: int, l: int|
        0 <= k < l < rank_spec(cands, q, min, max).len() implies (#[trigger] rank_spec(
        cands,
        q,
        min,
        max,
    )[k]).score >= (#[trigger] rank_spec(cands, q, min, max)[l]).score by {
        assert(pair_le(sorted[k], sorted[l]));
        assert(r[k] == sorted[k].1 && r[l] == sorted[l].1);
    }
}

/// Law: every ranked candidate scored above the minimum; with a minimum of
/// at least 0, no unmatched candidate — which scores 0 — ever appears.
pub proof fn lemma_rank_over_threshold(cands: Seq<Package>, q: Seq<char>, min: int, max: int)
    requires
        cands.len() <= usize::MAX,
        0 <= max,
    ensures
        forall|k: int|
            0 <= k < rank_spec(cands, q, min, max).len() ==> (#[trigger] rank_spec(
                cands,
                q,
                min,
                max,
            )[k]).score > min,
{
    let kept = kept_pairs(cands, q, min, cands.len() as int);
    lemma_kept_pairs_elems(cands, q, min, cands.len() as int);
    lemma_sort_pairs_pred(kept, |y: (usize, Package)| y.1.score > min);
    let sorted = sort_pairs(kept);
    let full = strip_pairs(sorted);
    assert(full.len() == sorted.len());
    assert(forall|k: int| 0 <= k < full.len() ==> #[trigger] full[k] == sorted[k].1);
    let r = rank_spec(cands, q, min, max);
    assert(r.len() <= full.len());
    assert(forall|k: int| 0 <= k < r.len() ==> #[trigger] r[k] == full[k]);
    assert forall|k: int| 0 <= k < r.len() implies (#[trigger] r[k]).score > min by {
        assert(r[k] == sorted[k].1);
        assert((|y: (usize, Package)| y.1.score > min)(sorted[k]));
    }
}

/// Law: the ranking is stable.  Two candidates whose recomputed scores are
/// equal and above the minimum both reach the ranked pair list, and the one
/// that came earlier in the input stays ahead of the other.
pub proof fn lemma_rank_stable(cands: Seq<Package>, q: Seq<char>, min: int, i: int, j: int)
    requires
        cands.len() <= usize::MAX,
        0 <= i < j < cands.len(),
        rescored(cands[i], q).score == rescored(cands[j], q).score,
        rescored(cands[i], q).score > min,
    ensures
        exists|ki: int, kj: int|
            0 <= ki < kj < ranked_pairs_spec(cands, q, min).len() && #[trigger] ranked_pairs_spec(
                cands,
                q,
                min,
            )[ki] == (i as usize, rescored(cands[i], q)) && #[trigger] ranked_pairs_spec(
                cands,
                q,
                min,
            )[kj] == (j as usize, rescored(cands[j], q)),
{
    let n = cands.len() as int;
    let kept = kept_pairs(cands, q, min, n);
    let ranked = ranked_pairs_spec(cands, q, min);
    let pi = (i as usize, rescored(cands[i], q));
    let pj = (j as usize, rescored(cands[j], q));
    lemma_kept_pairs_complete(cands, q, min, n, i);
    lemma_kept_pairs_complete(cands, q, min, n, j);
    assert(kept.contains(pi));
    assert(kept.contains(pj));
    lemma_sort_pairs_props(kept);
    assert(ranked.contains(pi));
    assert(ranked.contains(pj));
    let ki = choose|ki: int| 0 <= ki < ranked.len() && ranked[ki] == pi;
    let kj = choose|kj: int| 0 <= kj < ranked.len() && ranked[kj] == pj;
    assert(ki != kj);
    if kj < ki {
        assert(pair_le(ranked[kj], ranked[ki]));
        assert(false);
    }
    assert(0 <= ki < kj < ranked.len() && ranked[ki] == pi && ranked[kj] == pj);
}

/// Law: stability reaches the returned list itself.  When no truncation
/// cuts the ranking, two candidates with equal scores above the minimum
/// appear in the result in their input order.
pub proof fn lemma_rank_stable_output(
    cands: Seq<Package>,
    q: Seq<char>,
    min: int,
    max: int,
    i: int,
    j: int,
)
    requires
        cands.len() <= usize::MAX,
        cands.len() <= max,
        0 <= i < j < cands.len(),
        rescored(cands[i], q).score == rescored(cands[j], q).score,
        rescored(cands[i], q).score > min,
    ensures
        exists|ki: int, kj: int|
            0 <= ki < kj < rank_spec(cands, q, min, max).len() && #[trigger] rank_spec(
                cands,
                q,
                min,
                max,
            )[ki] == rescored(cands[i], q) && #[trigger] rank_spec(cands, q, min, max)[kj]
                == rescored(cands[j], q),
{
    lemma_rank_stable(cands, q, min, i, j);
    let ranked = ranked_pairs_spec(cands, q, min);
    let kept = kept_pairs(cands, q, min, cands.len() as int);
    lemma_kept_pairs_elems(cands, q, min, cands.len() as int);
    lemma_sort_pairs_props(kept);
    assert(ranked.len() <= cands.len());
    let full = strip_pairs(ranked);
    assert(full.len() == ranked.len());
    assert(forall|k: int| 0 <= k < full.len() ==> #[trigger] full[k] == ranked[k].1);
    assert(rank_spec(cands, q, min, max) == full);
    let (ki, kj) = choose|ki: int, kj: int|
        0 <= ki < kj < ranked.len() && #[trigger] ranked[ki] == (i as usize, rescored(cands[i], q))
            && #[trigger] ranked[kj] == (j as usize, rescored(cands[j], q));
    assert(full[ki] == rescored(cands[i], q));
    assert(full[kj] == rescored(cands[j], q));
}

/// Where an insertion lands: right after the pairs that rank at or before
/// the inserted one.
proof fn lemma_insert_pair_at(s: Seq<(usize, Package)>, x: (usize, Package), pos: int)
    requires
        0 <= pos <= s.len(),
        forall|k: int| 0 <= k < pos ==> pair_le(#[trigger] s[k], x),
        pos == s.len() || !pair_le(s[pos], x),
    ensures
        insert_pair(s, x) == s.take(pos) + seq![x] + s.skip(pos),
    decreases s.len(),
{
    if s.len() == 0 {
        assert(insert_pair(s, x) =~= s.take(pos) + seq![x] + s.skip(pos));
    } else if pos == 0 {
        assert(!pair_le(s[0], x));
        assert(insert_pair(s, x) =~= s.take(0) + seq![x] + s.skip(0));
    } else {
        assert(pair_le(s[0], x));
        let d = s.drop_first();
        assert(forall|k: int| 0 <= k < d.len() ==> #[trigger] d[k] == s[k + 1]);
        lemma_insert_pair_at(d, x, pos - 1);
        assert(insert_pair(s, x) == seq![s[0]] + (d.take(pos - 1) + seq![x] + d.skip(pos - 1)));
        assert(insert_pair(s, x) =~= s.take(pos) + seq![x] + s.skip(pos));
    }
}

fn pair_le_exec(a: &(usize, Package), b: &(usize, Package)) -> (r: bool)
    ensures
        r == pair_le(*a, *b),
{
    a.1.score > b.1.score || (a.1.score == b.1.score && a.0 <= b.0)
}

/// Inserts `x` into the sorted vector `v` at its rank, after all pairs
/// that rank at or before it.
fn insert_ranked(v: &mut Vec<(usize, Package)>, x: (usize, Package))
    ensures
        final(v)@ == insert_pair(old(v)@, x),
{
    let mut pos: usize = 0;
    while pos < v.len() && pair_le_exec(&v[pos], &x)
        invariant
            pos <= v@.len(),
            v@ == old(v)@,
            forall|k: int| 0 <= k < pos ==> pair_le(#[trigger] v@[k], x),
        decreases v@.len() - pos,
    {
        pos = pos + 1;
    }
    proof {
        lemma_insert_pair_at(v@, x, pos as int);
    }
    v.insert(pos, x);
    proof {
        assert(old(v)@.insert(pos as int, x) =~= old(v)@.take(pos as int) + seq![x] + old(
            v,
        )@.skip(pos as int));
    }
}

/// Ranks `cands` against `query`: every candidate is rescored on its bare
/// name, candidates scoring at most `min_score` are dropped, the rest are
/// sorted by descending score — stably, so equal scores keep their input
/// order — and at most `max_results` are returned.
pub fn rank(cands: Vec<Package>, query: &str, min_score: i64, max_results: usize) -> (r: Vec<
    Package,
>)
    ensures
        r@ == rank_spec(cands@, query@, min_score as int, max_results as int),
{
    let ghost orig = cands@;
    let mut cands = cands;
    let total: usize = cands.len();
    let mut kept: Vec<(usize, Package)> = Vec::new();
    let mut i: usize = 0;
    proof {
        assert(orig.skip(0) =~= orig);
    }
    while cands.len() > 0
        invariant
            total == orig.len(),
            i + cands@.len() == orig.len(),
            cands@ == orig.skip(i as int),
            kept@ == kept_pairs(orig, query@, min_score as int, i as int),
        decreases cands@.len(),
    {
        let mut p = cands.remove(0);
        proof {
            assert(orig.skip(i as int)[0] == orig[i as int]);
            assert(orig.skip(i as int).remove(0) =~= orig.skip(i as int + 1));
        }
        let bare = pure_name(p.name.as_str());
        let s = fuzzy_match(query, bare.as_str());
        proof {
            lemma_fuzzy_match_bounds(query@, pure_name_spec(p.name@));
        }
        p.score = s;
        proof {
            assert(p == rescored(orig[i as int], query@));
        }
        if s > min_score {
            kept.push((i, p));
        }
        i = i + 1;
    }
    let ghost keptseq = kept@;
    let kept_total: usize = kept.len();
    let mut sorted: Vec<(usize, Package)> = Vec::new();
    let mut n: usize = 0;
    proof {
        assert(keptseq.take(0) =~= Seq::<(usize, Package)>::empty());
    }
    while kept.len() > 0
        invariant
            kept_total == keptseq.len(),
            n + kept@.len() == keptseq.len(),
            kept@ == keptseq.skip(n as int),
            sorted@ == sort_pairs(keptseq.take(n as int)),
        decreases kept@.len(),
    {
        let x = kept.remove(0);
        proof {
            assert(keptseq.skip(n as int)[0] == keptseq[n as int]);
            assert(keptseq.skip(n as int).remove(0) =~= keptseq.skip(n as int + 1));
            assert(keptseq.take(n as int + 1).drop_last() =~= keptseq.take(n as int));
            assert(keptseq.take(n as int + 1).last() == keptseq[n as int]);
        }
        insert_ranked(&mut sorted, x);
        n = n + 1;
    }
    proof {
        assert(keptseq.take(keptseq.len() as int) =~= keptseq);
    }
    let mut sorted = sorted;
    if max_results < sorted.len() {
        sorted.truncate(max_results);
    }
    let ghost finalpairs = sorted@;
    let final_total: usize = sorted.len();
    let mut out: Vec<Package> = Vec::new();
    let mut m: usize = 0;
    while sorted.len() > 0
        invariant
            final_total == finalpairs.len(),
            m + sorted@.len() == finalpairs.len(),
            sorted@ == finalpairs.skip(m as int),
            out@ == strip_pairs(finalpairs).take(m as int),
        decreases sorted@.len(),
    {
        let x = sorted.remove(0);
        proof {
            assert(finalpairs.skip(m as int)[0] == finalpairs[m as int]);
            assert(finalpairs.skip(m as int).remove(0) =~= finalpairs.skip(m as int + 1));
        }
        out.push(x.1);
        proof {
            assert(out@ =~= strip_pairs(finalpairs).take(m as int + 1));
        }
        m = m + 1;
    }
    proof {
        let full = strip_pairs(ranked_pairs_spec(orig, query@, min_score as int));
        assert(out@ =~= strip_pairs(finalpairs));
        if max_results < full.len() {
            assert(finalpairs == ranked_pairs_spec(orig, query@, min_score as int).subrange(
                0,
                max_results as int,
            ));
            assert(out@ =~= full.take(max_results as int));
        } else {
            assert(out@ =~= full);
        }
    }
    out
}

} // verus!
