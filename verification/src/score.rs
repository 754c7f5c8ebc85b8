//! The scorer: a fixed-point relevance score for a located match.
//!
//! Scores are integers in units of one millionth (the value 1_000_000
//! stands for 1.0), so that candidates can be ordered exactly and
//! reproducibly.  The score is a fixed linear combination of features of
//! the match; the weight vector, in units of the feature scale, is
//!
//! * match ratio 30, first-match bonus 20, consecutiveness 30,
//! * compactness 10, word-boundary bonus 10, starts-with bonus 15,
//! * length closeness 5, and gap penalty −10.
//!
//! Each feature is itself scaled to at most 1_000_000, so every score lies
//! between −10_000_000 and 112_000_000.
//!
//! Fixed-point division quantizes each feature to its nearest lower
//! millionth, so two inputs can share a feature value once the divisor
//! outgrows the scale.  Concretely: the first-match bonus separates
//! adjacent start positions while the target has at most 1_000_000
//! characters, consecutiveness separates adjacent pair counts while the
//! query has at most 1_000_000 characters, and compactness and the gap
//! penalty separate adjacent spans while span · (span + 1) is at most
//! 1_000_000 · |query|.  Within those ranges — far beyond any real package
//! name — the features order their inputs strictly.

use vstd::prelude::*;

use crate::locate::{
    fuzzy_get_indexes, lemma_increasing_from_first, lemma_match_spells_query, locate_spec,
};
use crate::normalize::{fold_chars, fold_seq, is_separator, is_separator_exec, str_to_chars};

verus! {

/// How many adjacent index pairs are exactly one apart.
pub open spec fn consec_count(s: Seq<int>) -> int
    decreases s.len(),
{
    if s.len() <= 1 {
        0
    } else {
        consec_count(s.drop_last()) + (if s[s.len() - 1] == s[s.len() - 2] + 1 {
            1int
        } else {
            0int
        })
    }
}

/// How much of the target the query covers: 1_000_000 · |query| / |target|.
pub open spec fn match_ratio_feature(ql: int, tl: int) -> int {
    1_000_000 * ql / tl
}

/// How early the match starts: 1_000_000 · (|target| − first) / |target|.
pub open spec fn first_match_feature(tl: int, first: int) -> int {
    1_000_000 * (tl - first) / tl
}

/// The fraction of adjacent matched pairs that are contiguous:
/// 1_000_000 · pairs / |query|.
pub open spec fn consecutiveness_feature(s: Seq<int>, ql: int) -> int {
    1_000_000 * consec_count(s) / ql
}

/// How tightly the matched indices cluster: 1_000_000 · |query| / span.  A
/// single-character match gets a small 1_000_000 / |target| bonus instead, so it
/// is not over-rewarded.
pub open spec fn compactness_feature(ql: int, tl: int, span: int) -> int {
    if ql == 1 {
        1_000_000int / tl
    } else {
        1_000_000 * ql / span
    }
}

/// Alignment to a word start: 800_000 at the very start of the target, 500_000
/// right after a separator, otherwise 0.
pub open spec fn word_boundary_feature(t: Seq<char>, first: int) -> int {
    if first == 0 {
        800_000
    } else if is_separator(t[first - 1]) {
        500_000
    } else {
        0
    }
}

/// A fixed 600_000 for a true prefix match, stacked on the word-boundary bonus.
pub open spec fn starts_with_feature(first: int) -> int {
    if first == 0 {
        600_000
    } else {
        0
    }
}

/// Closeness in length: 1_000_000 / (1 + |target| − |query|).
pub open spec fn length_feature(ql: int, tl: int) -> int {
    1_000_000int / (1 + tl - ql)
}

/// A smoothly growing penalty for interleaved characters:
/// 1_000_000 · gap / (gap + |query|), where gap = span − |query|.
pub open spec fn gap_penalty_feature(gap: int, ql: int) -> int {
    1_000_000 * gap / (gap + ql)
}

/// The indices form a plausible match into a target of length `tl`:
/// in bounds and strictly increasing.
pub open spec fn valid_indices(tl: int, s: Seq<int>) -> bool {
    &&& forall|k: int| 0 <= k < s.len() ==> 0 <= #[trigger] s[k] < tl
    &&& forall|k: int| 0 <= k < s.len() - 1 ==> #[trigger] s[k] < s[k + 1]
}

/// The score of a full match `s` of `q` inside `t`: the weighted feature
/// sum, in millionth units.  An empty query scores 0.
pub open spec fn score_spec(q: Seq<char>, t: Seq<char>, s: Seq<int>) -> int {
    if q.len() == 0 || s.len() == 0 {
        0
    } else {
        let ql = q.len() as int;
        let tl = t.len() as int;
        let span = s[s.len() - 1] - s[0] + 1;
        let gap = span - ql;
        30 * match_ratio_feature(ql, tl) + 20 * first_match_feature(tl, s[0]) + 30
            * consecutiveness_feature(s, ql) + 10 * compactness_feature(ql, tl, span) + 10
            * word_boundary_feature(t, s[0]) + 15 * starts_with_feature(s[0]) + 5 * length_feature(
            ql,
            tl,
        ) - 10 * gap_penalty_feature(gap, ql)
    }
}

/// The end-to-end score of a raw query against a raw target: both sides are
/// case-folded, the query is located greedily, and a match is scored; no
/// match — including the empty query — scores 0.
pub open spec fn fuzzy_match_spec(q: Seq<char>, t: Seq<char>) -> int {
    match locate_spec(fold_seq(q), fold_seq(t)) {
        None => 0,
        Some(s) => score_spec(fold_seq(q), fold_seq(t), s),
    }
}

proof fn lemma_div_bound(a: int, b: int, c: int)
    requires
        1 <= b,
        0 <= a,
        a <= c * b,
    ensures
        0 <= a / b <= c,
{
    assert(0 <= a / b <= c) by (nonlinear_arith)
        requires
            1 <= b,
            0 <= a,
            a <= c * b,
    ;
}

/// The count of contiguous pairs never exceeds the number of pairs.
proof fn lemma_consec_count_bound(s: Seq<int>)
    ensures
        0 <= consec_count(s) <= if s.len() == 0 {
            0int
        } else {
            s.len() - 1
        },
    decreases s.len(),
{
    if s.len() > 1 {
        lemma_consec_count_bound(s.drop_last());
    }
}

/// Every feature is bounded, so every score lies between −10_000_000 and
/// 112_000_000.
pub proof fn lemma_score_bounds(q: Seq<char>, t: Seq<char>, s: Seq<int>)
    requires
        s.len() == q.len(),
        valid_indices(t.len() as int, s),
    ensures
        -10_000_000 <= score_spec(q, t, s) <= 112_000_000,
{
    if q.len() > 0 && s.len() > 0 {
        let ql = q.len() as int;
        let tl = t.len() as int;
        lemma_increasing_from_first(s);
        assert(s[s.len() - 1] >= s[0] + s.len() - 1);
        let span = s[s.len() - 1] - s[0] + 1;
        let gap = span - ql;
        assert(span >= ql);
        assert(ql <= tl);
        lemma_div_bound(1_000_000 * ql, tl, 1_000_000);
        lemma_div_bound(1_000_000 * (tl - s[0]), tl, 1_000_000);
        lemma_consec_count_bound(s);
        lemma_div_bound(1_000_000 * consec_count(s), ql, 1_000_000);
        if ql == 1 {
            lemma_div_bound(1_000_000, tl, 1_000_000);
        } else {
            lemma_div_bound(1_000_000 * ql, span, 1_000_000);
        }
        lemma_div_bound(1_000_000, 1 + tl - ql, 1_000_000);
        lemma_div_bound(1_000_000 * gap, gap + ql, 1_000_000);
    }
}

/// Integer division grows strictly once the numerator gains a whole
/// divisor.
proof fn lemma_div_grows_with_numerator(a1: int, a2: int, b: int)
    requires
        0 <= a1,
        1 <= b,
        a1 + b <= a2,
    ensures
        a1 / b < a2 / b,
{
    vstd::arithmetic::div_mod::lemma_hoist_over_denominator(a1, 1, b as nat);
    assert(a1 / b + 1 == (a1 + 1 * b) / b);
    vstd::arithmetic::div_mod::lemma_div_is_ordered(a1 + b, a2, b);
}

/// Integer division of a numerator at least b · (b + 1) shrinks strictly
/// when the denominator grows from b to b + 1.
proof fn lemma_div_shrinks_with_denominator(a: int, b: int)
    requires
        1 <= b,
        b * (b + 1) <= a,
    ensures
        a / (b + 1) < a / b,
{
    assert(0 <= a && (b + 1) * b <= a) by (nonlinear_arith)
        requires
            1 <= b,
            b * (b + 1) <= a,
    ;
    let q2 = a / (b + 1);
    vstd::arithmetic::div_mod::lemma_div_is_ordered((b + 1) * b, a, b + 1);
    vstd::arithmetic::div_mod::lemma_div_multiples_vanish(b, b + 1);
    assert(q2 >= b);
    vstd::arithmetic::div_mod::lemma_remainder_lower(a, b + 1);
    assert(a >= (a / (b + 1)) * (b + 1));
    assert(q2 * (b + 1) >= q2 * b + b) by (nonlinear_arith)
        requires
            q2 >= b,
    ;
    assert(b * (q2 + 1) == q2 * b + b) by (nonlinear_arith);
    vstd::arithmetic::div_mod::lemma_div_is_ordered(b * (q2 + 1), a, b);
    vstd::arithmetic::div_mod::lemma_div_multiples_vanish(q2 + 1, b);
    assert(a / b >= q2 + 1);
}

/// Widening a gap by one while its span widens with it never shrinks the
/// quantized gap fraction.
proof fn lemma_gap_term_monotone(g: int, s: int)
    requires
        0 <= g <= s,
        1 <= s,
    ensures
        1_000_000 * g / s <= 1_000_000 * (g + 1) / (s + 1),
{
    let q = 1_000_000 * g / s;
    assert(0 <= 1_000_000 * g) by (nonlinear_arith)
        requires
            0 <= g,
    ;
    vstd::arithmetic::div_mod::lemma_remainder_lower(1_000_000 * g, s);
    assert(1_000_000 * g >= q * s);
    assert(1_000_000 * g <= s * 1_000_000) by (nonlinear_arith)
        requires
            g <= s,
    ;
    vstd::arithmetic::div_mod::lemma_multiply_divide_le(1_000_000 * g, s, 1_000_000);
    assert(q <= 1_000_000);
    assert(1_000_000 * (g + 1) >= q * (s + 1)) by (nonlinear_arith)
        requires
            1_000_000 * g >= q * s,
            q <= 1_000_000,
    ;
    assert(q * (s + 1) == (s + 1) * q) by (nonlinear_arith);
    vstd::arithmetic::div_mod::lemma_div_is_ordered((s + 1) * q, 1_000_000 * (g + 1), s + 1);
    vstd::arithmetic::div_mod::lemma_div_multiples_vanish(q, s + 1);
}

/// Law: all else equal, a match that starts earlier scores strictly
/// higher, for targets of at most 1_000_000 characters.  Both starts sit
/// after a non-separator character, so no boundary bonus interferes; span
/// and contiguous-pair count agree, so only the first-match bonus moves.
pub proof fn lemma_earlier_start_scores_higher(
    q: Seq<char>,
    t: Seq<char>,
    s1: Seq<int>,
    s2: Seq<int>,
)
    requires
        s1.len() == q.len(),
        s2.len() == q.len(),
        q.len() > 0,
        valid_indices(t.len() as int, s1),
        valid_indices(t.len() as int, s2),
        t.len() <= 1_000_000,
        0 < s1[0] < s2[0],
        !is_separator(t[s1[0] - 1]),
        !is_separator(t[s2[0] - 1]),
        s1[s1.len() - 1] - s1[0] == s2[s2.len() - 1] - s2[0],
        consec_count(s1) == consec_count(s2),
    ensures
        score_spec(q, t, s1) > score_spec(q, t, s2),
{
    let tl = t.len() as int;
    assert(s2[0] < tl);
    lemma_div_grows_with_numerator(1_000_000 * (tl - s2[0]), 1_000_000 * (tl - s1[0]), tl);
    assert(first_match_feature(tl, s1[0]) > first_match_feature(tl, s2[0]));
}

/// Law: all else equal, more contiguous pairs score strictly higher, for
/// queries of at most 1_000_000 characters.  First and last index agree,
/// so only the consecutiveness feature moves.
pub proof fn lemma_more_contiguity_scores_higher(
    q: Seq<char>,
    t: Seq<char>,
    s1: Seq<int>,
    s2: Seq<int>,
)
    requires
        s1.len() == q.len(),
        s2.len() == q.len(),
        q.len() > 0,
        valid_indices(t.len() as int, s1),
        valid_indices(t.len() as int, s2),
        q.len() <= 1_000_000,
        s1[0] == s2[0],
        s1[s1.len() - 1] == s2[s2.len() - 1],
        consec_count(s1) < consec_count(s2),
    ensures
        score_spec(q, t, s2) > score_spec(q, t, s1),
{
    let ql = q.len() as int;
    lemma_consec_count_bound(s1);
    lemma_div_grows_with_numerator(
        1_000_000 * consec_count(s1),
        1_000_000 * consec_count(s2),
        ql,
    );
    assert(consecutiveness_feature(s2, ql) > consecutiveness_feature(s1, ql));
}

/// Law: all else equal, a tighter span scores strictly higher, as long as
/// span · (span + 1) stays within 1_000_000 · |query|: widening the span
/// strictly lowers the compactness reward and never lowers the gap
/// penalty.
pub proof fn lemma_tighter_span_scores_higher(
    q: Seq<char>,
    t: Seq<char>,
    s1: Seq<int>,
    s2: Seq<int>,
)
    requires
        s1.len() == q.len(),
        s2.len() == q.len(),
        q.len() > 1,
        valid_indices(t.len() as int, s1),
        valid_indices(t.len() as int, s2),
        s1[0] == s2[0],
        consec_count(s1) == consec_count(s2),
        s2[s2.len() - 1] - s2[0] == s1[s1.len() - 1] - s1[0] + 1,
        (s1[s1.len() - 1] - s1[0] + 1) * (s1[s1.len() - 1] - s1[0] + 2) <= 1_000_000 * q.len(),
    ensures
        score_spec(q, t, s1) > score_spec(q, t, s2),
{
    let ql = q.len() as int;
    let span1 = s1[s1.len() - 1] - s1[0] + 1;
    let gap1 = span1 - ql;
    lemma_increasing_from_first(s1);
    assert(s1[s1.len() - 1] >= s1[0] + s1.len() - 1);
    assert(span1 >= ql);
    lemma_div_shrinks_with_denominator(1_000_000 * ql, span1);
    assert(compactness_feature(ql, t.len() as int, span1) > compactness_feature(
        ql,
        t.len() as int,
        span1 + 1,
    ));
    lemma_gap_term_monotone(gap1, span1);
    assert(gap_penalty_feature(gap1, ql) <= gap_penalty_feature(gap1 + 1, ql));
}

/// 1_000_000 · a / b for a at most b, so the result is at most 1_000_000.
fn scaled_ratio(a: u64, b: u64) -> (r: u64)
    requires
        1 <= b,
        a <= b,
    ensures
        r as int == 1_000_000 * (a as int) / (b as int),
        r <= 1_000_000,
{
    proof {
        lemma_div_bound(1_000_000 * (a as int), b as int, 1_000_000);
    }
    ((1_000_000u128 * (a as u128)) / (b as u128)) as u64
}

/// 1_000_000 / d for d at least 1, so the result is at most 1_000_000.
fn scaled_inverse(d: u64) -> (r: u64)
    requires
        1 <= d,
    ensures
        r as int == 1_000_000int / (d as int),
        r <= 1_000_000,
{
    proof {
        lemma_div_bound(1_000_000, d as int, 1_000_000);
    }
    1_000_000 / d
}

/// Counts the adjacent index pairs that are exactly one apart.
fn count_consecutive(indices: &[usize]) -> (count: usize)
    requires
        indices@.len() >= 1,
        forall|k: int|
            0 <= k < indices@.len() - 1 ==> (#[trigger] indices@[k] as int) < indices@[k + 1]
                as int,
    ensures
        count as int == consec_count(indices@.map_values(|p: usize| p as int)),
        count <= indices@.len() - 1,
{
    let ghost s = indices@.map_values(|p: usize| p as int);
    let mut count: usize = 0;
    let mut i: usize = 1;
    while i < indices.len()
        invariant
            1 <= i <= indices@.len(),
            count <= i - 1,
            count as int == consec_count(s.take(i as int)),
            s == indices@.map_values(|p: usize| p as int),
            forall|k: int|
                0 <= k < indices@.len() - 1 ==> (#[trigger] indices@[k] as int) < indices@[k + 1]
                    as int,
        decreases indices@.len() - i,
    {
        proof {
            assert(s.take(i as int + 1).drop_last() =~= s.take(i as int));
            assert(s.take(i as int + 1)[i as int] == indices@[i as int] as int);
            assert((indices@[i as int - 1] as int) < (indices@[i as int] as int));
        }
        if indices[i] == indices[i - 1] + 1 {
            count = count + 1;
        }
        i = i + 1;
    }
    proof {
        assert(s.take(s.len() as int) =~= s);
    }
    count
}

/// Scores a full located match.  `indices` must be the full match: one
/// in-bounds target position per query character, strictly increasing.
/// The result is the weighted feature sum of `score_spec`, in millionth
/// units; an empty query scores 0.
#[verifier::rlimit(60)]
pub fn calculate_score(query: &[char], target: &[char], indices: &[usize]) -> (r: i64)
    requires
        indices@.len() == query@.len(),
        valid_indices(target@.len() as int, indices@.map_values(|p: usize| p as int)),
    ensures
        r as int == score_spec(query@, target@, indices@.map_values(|p: usize| p as int)),
        query@.len() == 0 ==> r == 0,
{
    let ghost s = indices@.map_values(|p: usize| p as int);
    if query.len() == 0 || indices.len() == 0 {
        return 0;
    }
    proof {
        lemma_increasing_from_first(s);
        assert(forall|k: int| 0 <= k < s.len() ==> #[trigger] s[k] == indices@[k] as int);
        assert(s[s.len() - 1] >= s[0] + s.len() - 1);
        assert(s[0] == indices@[0] as int);
        assert(s[s.len() - 1] == indices@[indices@.len() - 1] as int);
    }
    let ql: u64 = query.len() as u64;
    let tl: u64 = target.len() as u64;
    let first: usize = indices[0];
    let last: usize = indices[indices.len() - 1];
    let span: u64 = (last - first) as u64 + 1;
    let gap: u64 = span - ql;
    proof {
        assert(span as int == s[s.len() - 1] - s[0] + 1);
        assert(gap as int == span as int - ql as int);
    }

    let match_ratio: u64 = scaled_ratio(ql, tl);
    let first_bonus: u64 = scaled_ratio(tl - first as u64, tl);
    proof {
        assert forall|k: int| 0 <= k < indices@.len() - 1 implies (#[trigger] indices@[k] as int)
            < indices@[k + 1] as int by {
            assert(s[k] < s[k + 1]);
            assert(s[k] == indices@[k] as int);
            assert(s[k + 1] == indices@[k + 1] as int);
        }
    }
    let count: usize = count_consecutive(indices);
    let consec: u64 = scaled_ratio(count as u64, ql);
    let compact: u64 = if ql == 1 {
        scaled_inverse(tl)
    } else {
        scaled_ratio(ql, span)
    };
    let word: u64 = if first == 0 {
        800_000
    } else if is_separator_exec(target[first - 1]) {
        500_000
    } else {
        0
    };
    let starts: u64 = if first == 0 {
        600_000
    } else {
        0
    };
    let length_pen: u64 = scaled_inverse(1 + (tl - ql));
    let gap_term: u64 = scaled_ratio(gap, span);

    let positive: u64 = 30 * match_ratio + 20 * first_bonus + 30 * consec + 10 * compact + 10
        * word + 15 * starts + 5 * length_pen;
    let penalty: u64 = 10 * gap_term;
    proof {
        assert(match_ratio as int == match_ratio_feature(ql as int, tl as int));
        assert(first_bonus as int == first_match_feature(tl as int, s[0]));
        assert(consec as int == consecutiveness_feature(s, ql as int));
        assert(compact as int == compactness_feature(ql as int, tl as int, span as int));
        assert(word as int == word_boundary_feature(target@, s[0]));
        assert(starts as int == starts_with_feature(s[0]));
        assert(length_pen as int == length_feature(ql as int, tl as int));
        assert(gap_term as int == gap_penalty_feature(gap as int, ql as int));
    }
    (positive as i64) - (penalty as i64)
}

/// Scores a raw query against a raw target end to end: case-folds both
/// sides, locates the query as a subsequence, and scores the match.
/// Returns 0 when the query does not match — in particular for an empty
/// query — and the exact fixed-point score otherwise.
pub fn fuzzy_match(query: &str, target: &str) -> (r: i64)
    ensures
        r as int == fuzzy_match_spec(query@, target@),
        query@.len() == 0 ==> r == 0,
{
    let qchars = str_to_chars(query);
    let tchars = str_to_chars(target);
    let q = fold_chars(&qchars);
    let t = fold_chars(&tchars);
    match fuzzy_get_indexes(q.as_slice(), t.as_slice()) {
        None => 0,
        Some(idx) => {
            proof {
                lemma_match_spells_query(
                    fold_seq(query@),
                    fold_seq(target@),
                    idx@.map_values(|p: usize| p as int),
                );
            }
            calculate_score(q.as_slice(), t.as_slice(), idx.as_slice())
        },
    }
}

/// An end-to-end score always lies between −10_000_000 and 112_000_000.
pub proof fn lemma_fuzzy_match_bounds(q: Seq<char>, t: Seq<char>)
    ensures
        -10_000_000 <= fuzzy_match_spec(q, t) <= 112_000_000,
{
    match locate_spec(fold_seq(q), fold_seq(t)) {
        None => {},
        Some(s) => {
            lemma_match_spells_query(fold_seq(q), fold_seq(t), s);
            lemma_score_bounds(fold_seq(q), fold_seq(t), s);
        },
    }
}

/// Law: an empty query locates no match and scores 0, whatever the target.
pub proof fn lemma_empty_query(t: Seq<char>, s: Seq<int>)
    ensures
        locate_spec(Seq::<char>::empty(), t) is None,
        score_spec(Seq::<char>::empty(), t, s) == 0,
        fuzzy_match_spec(Seq::<char>::empty(), t) == 0,
{
    assert(fold_seq(Seq::<char>::empty()).len() == 0);
}

/// Law: locating and scoring are functions of their inputs alone — calls
/// on equal inputs yield equal results.
pub proof fn lemma_deterministic(q1: Seq<char>, t1: Seq<char>, q2: Seq<char>, t2: Seq<char>)
    requires
        q1 == q2,
        t1 == t2,
    ensures
        locate_spec(q1, t1) == locate_spec(q2, t2),
        fuzzy_match_spec(q1, t1) == fuzzy_match_spec(q2, t2),
{
}

} // verus!
