//! Case normalization and character classes used by the matcher.
//!
//! Queries and targets are folded to lower case character by character, so
//! match indices into the folded target always line up with the original
//! target one character per character.

use vstd::prelude::*;

verus! {

/// The lower-case form of one character, where that form is a single
/// character; a character whose lower-casing would expand to several
/// characters — or that has no lower-case form — stands for itself.  The
/// one-character restriction keeps the folded sequence positionally
/// aligned with the original, one character per character.
pub uninterp spec fn fold_char(c: char) -> char;

/// The character-wise case folding of a whole sequence.
pub open spec fn fold_seq(s: Seq<char>) -> Seq<char> {
    s.map_values(|c: char| fold_char(c))
}

/// Word-boundary separators: a match starting right after one of these is
/// treated as aligned to a word start.
pub open spec fn is_separator(c: char) -> bool {
    c == ' ' || c == '-' || c == '_' || c == '/'
}

/// Relies on char::to_lowercase: the lower-case mapping of a character,
/// which depends on the character alone.  A mapping of several characters
/// would break the positional alignment between the folded and the
/// original sequence, so only a single-character mapping is taken and any
/// other character is kept as it is.
#[verifier::external_body]
fn fold_char_exec(c: char) -> (r: char)
    ensures
        r == fold_char(c),
{
    let mut lower = c.to_lowercase();
    match (lower.next(), lower.next()) {
        (Some(l), None) => l,
        _ => c,
    }
}

/// Folds every character of `s` to lower case.
pub fn fold_chars(s: &Vec<char>) -> (r: Vec<char>)
    ensures
        r@ == fold_seq(s@),
{
    let mut out: Vec<char> = Vec::new();
    let mut i: usize = 0;
    while i < s.len()
        invariant
            i <= s.len(),
            out@ =~= fold_seq(s@).take(i as int),
        decreases s.len() - i,
    {
        out.push(fold_char_exec(s[i]));
        i = i + 1;
    }
    proof {
        assert(out@ =~= fold_seq(s@));
    }
    out
}

pub fn is_separator_exec(c: char) -> (r: bool)
    ensures
        r == is_separator(c),
{
    c == ' ' || c == '-' || c == '_' || c == '/'
}

/// The position of the last `/` in `s`, or -1 when there is none.
pub open spec fn last_slash(s: Seq<char>) -> int
    decreases s.len(),
{
    if s.len() == 0 {
        -1
    } else if s[s.len() - 1] == '/' {
        s.len() - 1
    } else {
        last_slash(s.drop_last())
    }
}

proof fn lemma_last_slash_range(s: Seq<char>)
    ensures
        -1 <= last_slash(s) < s.len(),
    decreases s.len(),
{
    if s.len() > 0 && s[s.len() - 1] != '/' {
        lemma_last_slash_range(s.drop_last());
    }
}

/// The part of a candidate name after its last `/`: package listings often
/// prefix names with a repository, as in `extra/firefox`.
pub open spec fn pure_name_spec(s: Seq<char>) -> Seq<char> {
    s.subrange(last_slash(s) + 1, s.len() as int)
}

/// Strips everything up to and including the last `/` from a candidate
/// name, leaving the bare package name.
pub fn pure_name(name: &str) -> (r: String)
    ensures
        r@ == pure_name_spec(name@),
{
    let n = name.unicode_len();
    let mut j: usize = n;
    proof {
        assert(name@.take(n as int) =~= name@);
    }
    while j > 0
        invariant
            j <= n,
            n == name@.len(),
            last_slash(name@) == last_slash(name@.take(j as int)),
        decreases j,
    {
        if name.get_char(j - 1) == '/' {
            proof {
                lemma_last_slash_range(name@);
                assert(name@.take(j as int)[j - 1] == '/');
                assert(last_slash(name@.take(j as int)) == j - 1);
                assert(pure_name_spec(name@) =~= name@.subrange(j as int, n as int));
            }
            let tail = name.substring_char(j, n);
            return tail.to_owned();
        }
        proof {
            assert(name@.take(j as int).drop_last() =~= name@.take(j as int - 1));
            assert(name@.take(j as int)[j - 1] != '/');
        }
        j = j - 1;
    }
    proof {
        assert(name@.take(0) =~= Seq::<char>::empty());
        assert(last_slash(name@) == -1);
        assert(pure_name_spec(name@) =~= name@);
    }
    name.to_owned()
}

/// Compares two string slices character by character.
pub fn str_eq(a: &str, b: &str) -> (r: bool)
    ensures
        r == (a@ == b@),
{
    let na = a.unicode_len();
    let nb = b.unicode_len();
    if na != nb {
        return false;
    }
    let mut i: usize = 0;
    while i < na
        invariant
            i <= na,
            na == a@.len(),
            na == b@.len(),
            forall|k: int| 0 <= k < i ==> a@[k] == b@[k],
        decreases na - i,
    {
        if a.get_char(i) != b.get_char(i) {
            return false;
        }
        i = i + 1;
    }
    proof {
        assert(a@ =~= b@);
    }
    true
}

/// Collects the characters of a string slice into a vector, one entry per
/// character, so multi-byte characters count as one unit each.
pub fn str_to_chars(s: &str) -> (r: Vec<char>)
    ensures
        r@ == s@,
{
    let n = s.unicode_len();
    let mut out: Vec<char> = Vec::new();
    let mut i: usize = 0;
    while i < n
        invariant
            i <= n,
            n == s@.len(),
            out@ =~= s@.take(i as int),
        decreases n - i,
    {
        out.push(s.get_char(i));
        i = i + 1;
    }
    proof {
        assert(out@ =~= s@);
    }
    out
}

} // verus!
