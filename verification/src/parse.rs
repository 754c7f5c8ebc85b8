//! Parsing of package-manager listing output.
//!
//! A search listing alternates a header line — `name version …` — with an
//! indented description line.  A detail listing has `key : value` lines.
//! Both parsers work on lines the caller has already read; they do no I/O.

use vstd::prelude::*;

use crate::rank::{rank, rank_spec, Package};

verus! {

/// The views of a sequence of lines.
pub open spec fn line_views(lines: Seq<String>) -> Seq<Seq<char>> {
    lines.map_values(|l: String| l@)
}

/// The whitespace characters recognized between tokens.
pub open spec fn is_space(c: char) -> bool {
    c == ' ' || c == '\t' || c == '\n' || c == '\r'
}

/// The first position at or after `from` whose character's spacehood is
/// `want_space`, or the length when there is none.
pub open spec fn seek(s: Seq<char>, from: int, want_space: bool) -> int
    decreases s.len() - from,
{
    if from < 0 || from >= s.len() {
        s.len() as int
    } else if is_space(s[from]) == want_space {
        from
    } else {
        seek(s, from + 1, want_space)
    }
}

/// The end of the non-space content before `from`: the least upper bound
/// `b <= from` such that everything from `b` to `from` is space.
pub open spec fn seek_back(s: Seq<char>, from: int) -> int
    decreases from,
{
    if from <= 0 {
        0
    } else if !is_space(s[from - 1]) {
        from
    } else {
        seek_back(s, from - 1)
    }
}

/// `s` without leading and trailing whitespace.
pub open spec fn trim_spec(s: Seq<char>) -> Seq<char> {
    let a = seek(s, 0, false);
    let b = seek_back(s, s.len() as int);
    if a >= b {
        Seq::empty()
    } else {
        s.subrange(a, b)
    }
}

/// The first two whitespace-separated tokens of `s`, when it has at least
/// two.
pub open spec fn first_two_tokens_spec(s: Seq<char>) -> Option<(Seq<char>, Seq<char>)> {
    let a1 = seek(s, 0, false);
    let b1 = seek(s, a1, true);
    let a2 = seek(s, b1, false);
    let b2 = seek(s, a2, true);
    if a1 >= s.len() || a2 >= s.len() {
        None
    } else {
        Some((s.subrange(a1, b1), s.subrange(a2, b2)))
    }
}

proof fn lemma_seek_range(s: Seq<char>, from: int, want_space: bool)
    requires
        0 <= from <= s.len(),
    ensures
        from <= seek(s, from, want_space) <= s.len(),
    decreases s.len() - from,
{
    if from < s.len() && is_space(s[from]) != want_space {
        lemma_seek_range(s, from + 1, want_space);
    }
}

fn is_space_exec(c: char) -> (r: bool)
    ensures
        r == is_space(c),
{
    c == ' ' || c == '\t' || c == '\n' || c == '\r'
}

fn seek_exec(s: &str, from: usize, want_space: bool) -> (r: usize)
    requires
        from <= s@.len(),
    ensures
        r as int == seek(s@, from as int, want_space),
        from <= r <= s@.len(),
{
    let n = s.unicode_len();
    let mut j: usize = from;
    while j < n
        invariant
            from <= j <= n,
            n == s@.len(),
            seek(s@, from as int, want_space) == seek(s@, j as int, want_space),
        decreases n - j,
    {
        if is_space_exec(s.get_char(j)) == want_space {
            return j;
        }
        j = j + 1;
    }
    j
}

fn seek_back_exec(s: &str) -> (r: usize)
    ensures
        r as int == seek_back(s@, s@.len() as int),
        r <= s@.len(),
{
    let n = s.unicode_len();
    let mut j: usize = n;
    while j > 0
        invariant
            j <= n,
            n == s@.len(),
            seek_back(s@, n as int) == seek_back(s@, j as int),
        decreases j,
    {
        if !is_space_exec(s.get_char(j - 1)) {
            return j;
        }
        j = j - 1;
    }
    j
}

/// Strips leading and trailing whitespace from a line.
pub fn trim_str(s: &str) -> (r: String)
    ensures
        r@ == trim_spec(s@),
{
    let a = seek_exec(s, 0, false);
    let b = seek_back_exec(s);
    if a >= b {
        String::new()
    } else {
        let mid = s.substring_char(a, b);
        mid.to_owned()
    }
}

/// Splits off the first two whitespace-separated tokens of a line, when
/// there are at least two.
pub fn first_two_tokens(s: &str) -> (r: Option<(String, String)>)
    ensures
        match r {
            Some(t) => first_two_tokens_spec(s@) == Some((t.0@, t.1@)),
            None => first_two_tokens_spec(s@) is None,
        },
{
    let n = s.unicode_len();
    let a1 = seek_exec(s, 0, false);
    let b1 = seek_exec(s, a1, true);
    let a2 = seek_exec(s, b1, false);
    let b2 = seek_exec(s, a2, true);
    if a1 >= n || a2 >= n {
        None
    } else {
        let t1 = s.substring_char(a1, b1).to_owned();
        let t2 = s.substring_char(a2, b2).to_owned();
        Some((t1, t2))
    }
}

/// The (name, version, description) content of the records among the first
/// `n` line pairs: pair `j` is the header line `2j` with the description
/// line `2j + 1`, and a header with fewer than two tokens yields no record.
pub open spec fn records_spec(lv: Seq<Seq<char>>, n: int) -> Seq<(Seq<char>, Seq<char>, Seq<char>)>
    decreases n,
{
    if n <= 0 {
        Seq::empty()
    } else {
        let prev = records_spec(lv, n - 1);
        match first_two_tokens_spec(lv[2 * (n - 1)]) {
            None => prev,
            Some(t) => prev.push((t.0, t.1, trim_spec(lv[2 * (n - 1) + 1]))),
        }
    }
}

/// The records parsed from a whole listing: one candidate per line pair
/// whose header has at least two tokens.
pub open spec fn parsed_records(lv: Seq<Seq<char>>) -> Seq<(Seq<char>, Seq<char>, Seq<char>)> {
    records_spec(lv, lv.len() as int / 2)
}

/// `recs` carries exactly the parsed content of `lv`, each record under
/// `provider`, not yet scored.
pub open spec fn records_match(lv: Seq<Seq<char>>, provider: Seq<char>, recs: Seq<Package>) -> bool {
    &&& recs.len() == parsed_records(lv).len()
    &&& forall|k: int|
        0 <= k < recs.len() ==> {
            let rec = #[trigger] recs[k];
            &&& rec.name@ == parsed_records(lv)[k].0
            &&& rec.version@ == parsed_records(lv)[k].1
            &&& rec.description@ == parsed_records(lv)[k].2
            &&& rec.provider@ == provider
            &&& rec.score == 0
        }
}

/// Parses a listing into unscored records: line pairs of a header —
/// `name version …` — and a description line.  Header lines with fewer
/// than two tokens are skipped, with their description lines.
pub fn parse_records(lines: &Vec<String>, provider: &String) -> (r: Vec<Package>)
    ensures
        records_match(line_views(lines@), provider@, r@),
{
    let ghost lv = line_views(lines@);
    let mut r: Vec<Package> = Vec::new();
    let mut i: usize = 0;
    let mut pair: usize = 0;
    proof {
        assert(forall|k: int| 0 <= k < lv.len() ==> #[trigger] lv[k] == lines@[k]@);
    }
    while i + 1 < lines.len()
        invariant
            lv == line_views(lines@),
            forall|k: int| 0 <= k < lv.len() ==> #[trigger] lv[k] == lines@[k]@,
            i == 2 * pair,
            i <= lv.len() || lv.len() == 0,
            records_match(lv.take(if i <= lv.len() {
                i as int
            } else {
                0int
            }), provider@, r@),
            r@.len() <= pair,
        decreases lines@.len() - i,
    {
        let ghost prefix = lv.take(i as int);
        let ghost next = lv.take(i as int + 2);
        proof {
            assert(next.len() / 2 == pair + 1);
            assert(prefix.len() / 2 == pair as int);
            assert(next.take(i as int) =~= prefix);
            assert(records_spec(next, pair as int) =~= records_spec(prefix, pair as int)) by {
                lemma_records_spec_prefix(next, prefix, pair as int);
            }
            assert(next[2 * (pair as int)] == lv[i as int]);
            assert(next[2 * (pair as int) + 1] == lv[i as int + 1]);
            assert(lv[i as int] == lines@[i as int]@);
            assert(lv[i as int + 1] == lines@[i as int + 1]@);
        }
        match first_two_tokens(lines[i].as_str()) {
            None => {},
            Some(t) => {
                let description = trim_str(lines[i + 1].as_str());
                let p = Package {
                    provider: provider.clone(),
                    name: t.0,
                    version: t.1,
                    description,
                    score: 0,
                };
                r.push(p);
            },
        }
        i = i + 2;
        pair = pair + 1;
    }
    proof {
        if lv.len() == 0 {
            assert(lv.take(0) =~= lv);
        } else if i == lv.len() {
            assert(lv.take(i as int) =~= lv);
            assert(lv.len() as int / 2 == pair as int);
        } else {
            assert(i + 1 == lv.len());
            let prefix = lv.take(i as int);
            assert(prefix.len() as int / 2 == pair as int);
            assert(lv.len() as int / 2 == pair as int);
            lemma_records_spec_prefix(lv, prefix, pair as int);
            assert(parsed_records(lv) == records_spec(prefix, pair as int));
        }
    }
    r
}

/// A record prefix only reads the lines of its own pairs, so extending the
/// line sequence does not change it.
proof fn lemma_records_spec_prefix(longer: Seq<Seq<char>>, shorter: Seq<Seq<char>>, n: int)
    requires
        2 * n <= shorter.len() <= longer.len(),
        forall|k: int| 0 <= k < shorter.len() ==> #[trigger] longer[k] == shorter[k],
    ensures
        records_spec(longer, n) == records_spec(shorter, n),
    decreases n,
{
    if n > 0 {
        lemma_records_spec_prefix(longer, shorter, n - 1);
    }
}

/// Parses a listing and ranks its records against `query`: every record is
/// scored on its bare name, records that score 0 or below are dropped, and
/// the rest come back in descending score order with a stable tie-break.
pub fn parse_alternating_lines(lines: &Vec<String>, manager: &String, query: &str) -> (r: Vec<
    Package,
>)
    ensures
        exists|recs: Seq<Package>|
            #[trigger] records_match(line_views(lines@), manager@, recs) && r@
                == rank_spec(recs, query@, 0, recs.len() as int),
{
    let records = parse_records(lines, manager);
    let ghost recs = records@;
    let max = records.len();
    let r = rank(records, query, 0, max);
    proof {
        assert(records_match(line_views(lines@), manager@, recs) && r@ == rank_spec(
            recs,
            query@,
            0,
            recs.len() as int,
        ));
    }
    r
}

/// The first position at or after `from` where the ` : ` separator of a
/// detail line starts, or -1 when there is none.
pub open spec fn find_sep(s: Seq<char>, from: int) -> int
    decreases s.len() - from,
{
    if from < 0 || from + 3 > s.len() {
        -1
    } else if s[from] == ' ' && s[from + 1] == ':' && s[from + 2] == ' ' {
        from
    } else {
        find_sep(s, from + 1)
    }
}

/// The (key, value) content of the detail lines among the first `n` lines:
/// a line splits at the first ` : `, both sides trimmed; lines without the
/// separator yield nothing.
pub open spec fn detail_pairs_spec(lv: Seq<Seq<char>>, n: int) -> Seq<(Seq<char>, Seq<char>)>
    decreases n,
{
    if n <= 0 {
        Seq::empty()
    } else {
        let prev = detail_pairs_spec(lv, n - 1);
        let line = lv[n - 1];
        let p = find_sep(line, 0);
        if p >= 0 {
            prev.push(
                (
                    trim_spec(line.subrange(0, p)),
                    trim_spec(line.subrange(p + 3, line.len() as int)),
                ),
            )
        } else {
            prev
        }
    }
}

proof fn lemma_find_sep_range(s: Seq<char>, from: int)
    requires
        0 <= from,
    ensures
        find_sep(s, from) == -1 || from <= find_sep(s, from) <= s.len() - 3,
    decreases s.len() - from,
{
    if from + 3 <= s.len() && !(s[from] == ' ' && s[from + 1] == ':' && s[from + 2] == ' ') {
        lemma_find_sep_range(s, from + 1);
    }
}

fn find_sep_exec(s: &str) -> (r: Option<usize>)
    ensures
        match r {
            Some(p) => find_sep(s@, 0) == p as int,
            None => find_sep(s@, 0) == -1,
        },
{
    let n = s.unicode_len();
    if n < 3 {
        return None;
    }
    let mut j: usize = 0;
    while j <= n - 3
        invariant
            3 <= n,
            j <= n - 2,
            n == s@.len(),
            find_sep(s@, 0) == find_sep(s@, j as int),
        decreases n - j,
    {
        if s.get_char(j) == ' ' && s.get_char(j + 1) == ':' && s.get_char(j + 2) == ' ' {
            return Some(j);
        }
        j = j + 1;
    }
    None
}

/// Parses the lines of a detail listing into (key, value) pairs: each line
/// splits at its first ` : `, with both sides trimmed; lines without the
/// separator are skipped.
pub fn parse_detail_lines(lines: &Vec<String>) -> (r: Vec<(String, String)>)
    ensures
        r@.len() == detail_pairs_spec(line_views(lines@), lines@.len() as int).len(),
        forall|k: int|
            0 <= k < r@.len() ==> ((#[trigger] r@[k]).0@, r@[k].1@) == detail_pairs_spec(
                line_views(lines@),
                lines@.len() as int,
            )[k],
{
    let ghost lv = line_views(lines@);
    let mut r: Vec<(String, String)> = Vec::new();
    let mut i: usize = 0;
    proof {
        assert(forall|k: int| 0 <= k < lv.len() ==> #[trigger] lv[k] == lines@[k]@);
    }
    while i < lines.len()
        invariant
            lv == line_views(lines@),
            forall|k: int| 0 <= k < lv.len() ==> #[trigger] lv[k] == lines@[k]@,
            i <= lv.len(),
            r@.len() == detail_pairs_spec(lv, i as int).len(),
            forall|k: int|
                0 <= k < r@.len() ==> ((#[trigger] r@[k]).0@, r@[k].1@) == detail_pairs_spec(
                    lv,
                    i as int,
                )[k],
        decreases lines@.len() - i,
    {
        let line = &lines[i];
        let n = line.as_str().unicode_len();
        match find_sep_exec(line.as_str()) {
            None => {},
            Some(p) => {
                proof {
                    lemma_find_sep_range(lv[i as int], 0);
                }
                let keypart = line.as_str().substring_char(0, p);
                let valpart = line.as_str().substring_char(p + 3, n);
                let key = trim_str(keypart);
                let value = trim_str(valpart);
                r.push((key, value));
            },
        }
        i = i + 1;
    }
    r
}

} // verus!
