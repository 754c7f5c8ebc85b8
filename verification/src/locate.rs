//! The locator: greedy leftmost subsequence matching.
//!
//! A query matches a target when every query character occurs in the target
//! in query order, not necessarily contiguously.  The locator walks the
//! target once, taking the leftmost occurrence of each query character at or
//! after a cursor, and returns the matched positions — or nothing, when any
//! query character cannot be placed.  The match is all or nothing: there is
//! no partial result.

use vstd::prelude::*;

verus! {

/// The leftmost position of `c` in `t` at or after `from`, if any.
pub open spec fn find_char_from(t: Seq<char>, c: char, from: int) -> Option<int>
    decreases t.len() - from,
{
    if from < 0 || from >= t.len() {
        None
    } else if t[from] == c {
        Some(from)
    } else {
        find_char_from(t, c, from + 1)
    }
}

/// Greedy leftmost matching of all of `q` into `t`, starting at `from`:
/// each query character takes the leftmost occurrence at or after the
/// cursor, and the cursor moves one past it.
pub open spec fn greedy_indexes(q: Seq<char>, t: Seq<char>, from: int) -> Option<Seq<int>>
    decreases q.len(),
{
    if q.len() == 0 {
        Some(Seq::empty())
    } else {
        match find_char_from(t, q[0], from) {
            None => None,
            Some(p) => match greedy_indexes(q.drop_first(), t, p + 1) {
                None => None,
                Some(rest) => Some(seq![p] + rest),
            },
        }
    }
}

/// What the locator returns: the greedy leftmost match, except that an
/// empty query never matches.
pub open spec fn locate_spec(q: Seq<char>, t: Seq<char>) -> Option<Seq<int>> {
    if q.len() == 0 {
        None
    } else {
        greedy_indexes(q, t, 0)
    }
}

/// `e` places every character of `q` in `t`, in order, at strictly
/// increasing positions.
pub open spec fn is_embedding(q: Seq<char>, t: Seq<char>, e: Seq<int>) -> bool {
    &&& e.len() == q.len()
    &&& forall|k: int| 0 <= k < e.len() ==> 0 <= #[trigger] e[k] < t.len() && t[e[k]] == q[k]
    &&& forall|k: int| 0 <= k < e.len() - 1 ==> #[trigger] e[k] < e[k + 1]
}

/// `q` occurs somewhere in `t` as an ordered subsequence.
pub open spec fn is_subsequence(q: Seq<char>, t: Seq<char>) -> bool {
    exists|e: Seq<int>| is_embedding(q, t, e)
}

pub proof fn lemma_find_char_from(t: Seq<char>, c: char, from: int)
    requires
        0 <= from <= t.len(),
    ensures
        match find_char_from(t, c, from) {
            Some(p) => from <= p < t.len() && t[p] == c && (forall|j: int|
                from <= j < p ==> #[trigger] t[j] != c),
            None => forall|j: int| from <= j < t.len() ==> #[trigger] t[j] != c,
        },
    decreases t.len() - from,
{
    if from < t.len() && t[from] != c {
        lemma_find_char_from(t, c, from + 1);
    }
}

/// A greedy match places the query exactly: one index per query character,
/// all at or after the starting cursor, strictly increasing, and each index
/// holds the corresponding query character.
pub proof fn lemma_greedy_is_embedding(q: Seq<char>, t: Seq<char>, from: int, s: Seq<int>)
    requires
        0 <= from,
        greedy_indexes(q, t, from) == Some(s),
    ensures
        s.len() == q.len(),
        forall|k: int| 0 <= k < s.len() ==> from <= #[trigger] s[k] < t.len() && t[s[k]] == q[k],
        forall|k: int| 0 <= k < s.len() - 1 ==> #[trigger] s[k] < s[k + 1],
    decreases q.len(),
{
    if q.len() > 0 {
        let p = find_char_from(t, q[0], from)->0;
        assert(from <= t.len());
        lemma_find_char_from(t, q[0], from);
        let rest = greedy_indexes(q.drop_first(), t, p + 1)->0;
        lemma_greedy_is_embedding(q.drop_first(), t, p + 1, rest);
        assert(s == seq![p] + rest);
        assert(forall|k: int| 0 <= k < rest.len() ==> s[k + 1] == #[trigger] rest[k]);
        assert(forall|k: int| 1 <= k < s.len() ==> #[trigger] s[k] == rest[k - 1]);
        assert(forall|k: int| 0 <= k < q.drop_first().len() ==> #[trigger] q.drop_first()[k] == q[k + 1]);
    }
}

/// A strictly increasing integer sequence grows at least one per step.
pub proof fn lemma_increasing_from_first(e: Seq<int>)
    requires
        forall|k: int| 0 <= k < e.len() - 1 ==> #[trigger] e[k] < e[k + 1],
    ensures
        forall|k: int| 0 <= k < e.len() ==> #[trigger] e[k] >= e[0] + k,
    decreases e.len(),
{
    if e.len() > 1 {
        let e2 = e.drop_first();
        assert(forall|k: int| 0 <= k < e2.len() ==> #[trigger] e2[k] == e[k + 1]);
        assert(forall|k: int| 0 <= k < e2.len() - 1 ==> #[trigger] e2[k] < e2[k + 1]);
        lemma_increasing_from_first(e2);
        assert forall|k: int| 1 <= k < e.len() implies #[trigger] e[k] >= e[0] + k by {
            assert(e2[k - 1] >= e2[0] + (k - 1));
        }
    }
}

/// Greedy matching is complete: wherever the query embeds in the target at
/// positions at or after `from`, the greedy match from `from` succeeds.
pub proof fn lemma_greedy_complete(q: Seq<char>, t: Seq<char>, from: int, e: Seq<int>)
    requires
        0 <= from,
        is_embedding(q, t, e),
        forall|k: int| 0 <= k < e.len() ==> #[trigger] e[k] >= from,
    ensures
        greedy_indexes(q, t, from) is Some,
    decreases q.len(),
{
    if q.len() > 0 {
        assert(e[0] >= from);
        assert(0 <= e[0] < t.len() && t[e[0]] == q[0]);
        lemma_find_char_from(t, q[0], from);
        let found = find_char_from(t, q[0], from);
        assert(found is Some);
        let p = found->0;
        assert(p <= e[0]);
        let e2 = e.drop_first();
        assert(is_embedding(q.drop_first(), t, e2)) by {
            assert(forall|k: int| 0 <= k < e2.len() ==> #[trigger] e2[k] == e[k + 1]);
            assert(forall|k: int|
                0 <= k < q.drop_first().len() ==> #[trigger] q.drop_first()[k] == q[k + 1]);
        }
        assert(forall|k: int| 0 <= k < e2.len() ==> #[trigger] e2[k] >= p + 1) by {
            lemma_increasing_from_first(e);
            assert(forall|k: int| 0 <= k < e2.len() ==> #[trigger] e2[k] == e[k + 1]);
            assert(forall|k: int| 0 <= k < e.len() ==> #[trigger] e[k] >= e[0] + k);
        }
        lemma_greedy_complete(q.drop_first(), t, p + 1, e2);
    }
}

/// Law: when the locator returns a match, reading the target at the
/// returned indices, in order, spells exactly the query; the indices are
/// strictly increasing and in bounds.
pub proof fn lemma_match_spells_query(q: Seq<char>, t: Seq<char>, s: Seq<int>)
    requires
        locate_spec(q, t) == Some(s),
    ensures
        s.len() == q.len(),
        forall|k: int| 0 <= k < s.len() ==> 0 <= #[trigger] s[k] < t.len() && t[s[k]] == q[k],
        forall|k: int| 0 <= k < s.len() - 1 ==> #[trigger] s[k] < s[k + 1],
{
    lemma_greedy_is_embedding(q, t, 0, s);
}

/// Law: the match is all or nothing.  For a non-empty query, the locator
/// comes back empty exactly when the query embeds nowhere in the target;
/// it never returns a partial match.
pub proof fn lemma_all_or_nothing(q: Seq<char>, t: Seq<char>)
    requires
        q.len() > 0,
    ensures
        locate_spec(q, t) is None <==> !is_subsequence(q, t),
{
    if locate_spec(q, t) is Some {
        let s = locate_spec(q, t)->0;
        lemma_match_spells_query(q, t, s);
        assert(is_embedding(q, t, s));
    }
    if is_subsequence(q, t) {
        let e = choose|e: Seq<int>| is_embedding(q, t, e);
        lemma_greedy_complete(q, t, 0, e);
    }
}

/// The leftmost occurrence of `c` in `target` at or after `from`, by a
/// linear scan.
fn find_from(target: &[char], c: char, from: usize) -> (r: Option<usize>)
    requires
        from <= target@.len(),
    ensures
        match r {
            Some(p) => find_char_from(target@, c, from as int) == Some(p as int)
                && from <= p < target@.len(),
            None => find_char_from(target@, c, from as int) is None,
        },
{
    let mut j: usize = from;
    while j < target.len()
        invariant
            from <= j <= target@.len(),
            find_char_from(target@, c, from as int) == find_char_from(target@, c, j as int),
        decreases target@.len() - j,
    {
        if target[j] == c {
            return Some(j);
        }
        j = j + 1;
    }
    None
}

/// Locates `query` inside `target` by greedy leftmost subsequence matching
/// and returns the matched positions, one per query character.  An empty
/// query matches nothing.  Both sides are expected in the same case
/// normalization; this function compares characters exactly as given.
pub fn fuzzy_get_indexes(query: &[char], target: &[char]) -> (r: Option<Vec<usize>>)
    ensures
        match r {
            Some(v) => locate_spec(query@, target@) == Some(v@.map_values(|p: usize| p as int)),
            None => locate_spec(query@, target@) is None,
        },
{
    if query.len() == 0 {
        return None;
    }
    let tlen: usize = target.len();
    let mut indices: Vec<usize> = Vec::new();
    let mut cursor: usize = 0;
    let mut qi: usize = 0;
    proof {
        assert(query@.skip(0) =~= query@);
        assert(indices@.map_values(|x: usize| x as int) =~= Seq::<int>::empty());
        match greedy_indexes(query@, target@, 0) {
            None => {},
            Some(rest) => {
                assert(Seq::<int>::empty() + rest =~= rest);
            },
        }
    }
    while qi < query.len()
        invariant
            0 < query@.len(),
            qi <= query@.len(),
            cursor <= target@.len(),
            tlen == target@.len(),
            indices@.len() == qi,
            greedy_indexes(query@, target@, 0) == (match greedy_indexes(
                query@.skip(qi as int),
                target@,
                cursor as int,
            ) {
                None => None::<Seq<int>>,
                Some(rest) => Some(indices@.map_values(|p: usize| p as int) + rest),
            }),
        decreases query@.len() - qi,
    {
        let c = query[qi];
        let ghost tail = query@.skip(qi as int);
        proof {
            assert(tail.len() > 0);
            assert(tail[0] == query@[qi as int]);
            assert(tail.drop_first() =~= query@.skip(qi as int + 1));
        }
        match find_from(target, c, cursor) {
            None => {
                proof {
                    assert(greedy_indexes(tail, target@, cursor as int) is None);
                }
                return None;
            },
            Some(p) => {
                proof {
                    assert(find_char_from(target@, tail[0], cursor as int) == Some(p as int));
                }
                let ghost old_ints = indices@.map_values(|x: usize| x as int);
                let ghost old_cursor = cursor as int;
                indices.push(p);
                cursor = p + 1;
                qi = qi + 1;
                proof {
                    assert(indices@.map_values(|x: usize| x as int) =~= old_ints.push(p as int));
                    assert(query@.skip(qi as int) == tail.drop_first());
                    match greedy_indexes(query@.skip(qi as int), target@, cursor as int) {
                        None => {
                            assert(greedy_indexes(tail, target@, old_cursor) is None);
                        },
                        Some(rest) => {
                            assert(greedy_indexes(tail, target@, old_cursor) == Some(
                                seq![p as int] + rest,
                            ));
                            assert(old_ints.push(p as int) + rest =~= old_ints + (seq![p as int]
                                + rest));
                        },
                    }
                }
            },
        }
    }
    proof {
        assert(query@.skip(qi as int) =~= Seq::<char>::empty());
        assert(greedy_indexes(query@.skip(qi as int), target@, cursor as int) == Some(
            Seq::<int>::empty(),
        ));
        assert(indices@.map_values(|p: usize| p as int) + Seq::<int>::empty() =~= indices@
            .map_values(|p: usize| p as int));
    }
    Some(indices)
}

} // verus!
