use pkgfuzz::locate::fuzzy_get_indexes;
use pkgfuzz::score::{calculate_score, fuzzy_match};

fn chars(s: &str) -> Vec<char> {
    s.chars().collect()
}

#[test]
fn locates_fox_in_firefox() {
    let q = chars("fox");
    let t = chars("firefox");
    let idx = fuzzy_get_indexes(&q, &t).expect("fox must match firefox");
    assert_eq!(idx, vec![0, 5, 6]);
    assert!(fuzzy_match("fox", "firefox") > 0);
}

#[test]
fn match_indices_strictly_increase() {
    let q = chars("fx");
    let t = chars("firefox");
    let idx = fuzzy_get_indexes(&q, &t).expect("fx must match firefox");
    for k in 1..idx.len() {
        assert!(idx[k - 1] < idx[k]);
    }
}

#[test]
fn matched_indices_spell_the_query() {
    let q = chars("fox");
    let t = chars("firefox");
    let idx = fuzzy_get_indexes(&q, &t).unwrap();
    let picked: Vec<char> = idx.iter().map(|&i| t[i]).collect();
    assert_eq!(picked, q);
}

#[test]
fn no_match_is_all_or_nothing() {
    // `f` and `o` occur in `xfol`, but `x` has no occurrence after them:
    // the result is no match, not a partial one.
    let q = chars("fox");
    let t = chars("xfol");
    assert_eq!(fuzzy_get_indexes(&q, &t), None);
    assert_eq!(fuzzy_match("fox", "xfol"), 0);
}

#[test]
fn xyz_does_not_match_abc() {
    let q = chars("xyz");
    let t = chars("abc");
    assert_eq!(fuzzy_get_indexes(&q, &t), None);
    assert_eq!(fuzzy_match("xyz", "abc"), 0);
}

#[test]
fn empty_query_never_matches() {
    let q: Vec<char> = Vec::new();
    let t = chars("anything");
    assert_eq!(fuzzy_get_indexes(&q, &t), None);
    assert_eq!(fuzzy_match("", "anything"), 0);
    assert_eq!(fuzzy_match("", ""), 0);
}

#[test]
fn empty_target_never_matches() {
    let q = chars("a");
    let t: Vec<char> = Vec::new();
    assert_eq!(fuzzy_get_indexes(&q, &t), None);
    assert_eq!(fuzzy_match("a", ""), 0);
}

#[test]
fn matching_folds_case() {
    assert_eq!(fuzzy_match("FOO", "fooBAR"), fuzzy_match("foo", "foobar"));
    assert_eq!(fuzzy_match("FOO", "fooBAR"), 83_249_980);
}

#[test]
fn repeated_calls_agree() {
    let a = fuzzy_match("fire", "firefox");
    let b = fuzzy_match("fire", "firefox");
    assert_eq!(a, b);
    let q = chars("fire");
    let t = chars("firefox");
    assert_eq!(fuzzy_get_indexes(&q, &t), fuzzy_get_indexes(&q, &t));
}

#[test]
fn prefix_match_beats_shifted_match() {
    let prefix = fuzzy_match("foo", "foobar");
    let shifted = fuzzy_match("foo", "xfoobar");
    assert!(prefix > shifted);
    assert_eq!(prefix, 83_249_980);
    assert_eq!(shifted, 60_999_950);
}

#[test]
fn compact_match_beats_scattered_match() {
    let tight = fuzzy_match("ab", "ab");
    let scattered = fuzzy_match("ab", "a...................b");
    assert!(tight > scattered);
    assert_eq!(tight, 97_000_000);
    assert_eq!(scattered, 32_011_910);
}

#[test]
fn exact_match_scores_highest_of_these() {
    assert_eq!(fuzzy_match("abc", "abc"), 101_999_980);
}

#[test]
fn separator_gives_word_boundary_bonus() {
    // Same match shape, once after a separator and once after a letter.
    let after_sep = fuzzy_match("news", "fox-news");
    let after_letter = fuzzy_match("news", "foxnews");
    // The separator variant keeps the word-boundary bonus; the other
    // target is one character shorter, so compare the boundary term alone
    // via direct score calls on equal-shape inputs.
    assert!(after_sep > 0 && after_letter > 0);
    let t1: Vec<char> = "x-abc".chars().collect();
    let t2: Vec<char> = "xzabc".chars().collect();
    let q: Vec<char> = "abc".chars().collect();
    let idx = vec![2usize, 3, 4];
    let with_bonus = calculate_score(&q, &t1, &idx);
    let without_bonus = calculate_score(&q, &t2, &idx);
    assert_eq!(with_bonus - without_bonus, 5_000_000);
}

#[test]
fn single_character_match_uses_small_bonus() {
    // For a one-character query the compactness term is 1_000_000 / |target|.
    assert_eq!(fuzzy_match("a", "abc"), 51_999_985);
}

#[test]
fn score_of_empty_indices_is_zero() {
    let q: Vec<char> = Vec::new();
    let t = chars("abc");
    let idx: Vec<usize> = Vec::new();
    assert_eq!(calculate_score(&q, &t, &idx), 0);
}

#[test]
fn multibyte_characters_count_as_one_unit() {
    let q = chars("éx");
    let t = chars("zéx");
    let idx = fuzzy_get_indexes(&q, &t).expect("must match");
    assert_eq!(idx, vec![1, 2]);
    assert!(fuzzy_match("éx", "zéx") > 0);
}

#[test]
fn non_ascii_letters_fold_case_too() {
    // An accented upper-case query matches its lower-case target exactly
    // as the already-lower-cased pair does.
    assert_eq!(fuzzy_match("É", "é"), 82_000_000);
    assert_eq!(fuzzy_match("É", "é"), fuzzy_match("é", "é"));
    assert!(fuzzy_match("Σx", "σx") > 0);
    assert_eq!(fuzzy_match("Σx", "σx"), fuzzy_match("σx", "σx"));
}

#[test]
fn adjacent_spans_order_strictly() {
    // Two matches of a two-character query in a 100-character target,
    // with spans 63 and 64: the tighter span scores strictly higher.
    let q = chars("ab");
    let mut t = vec!['z'; 100];
    t[0] = 'a';
    t[62] = 'b';
    t[63] = 'b';
    let span63 = calculate_score(&q, &t, &[0usize, 62]);
    let span64 = calculate_score(&q, &t, &[0usize, 63]);
    assert!(span63 > span64);
    assert_eq!(span63, 28_285_435);
    assert_eq!(span64, 28_275_505);
}

#[test]
fn fox_scores_in_firefox() {
    assert_eq!(fuzzy_match("fox", "firefox"), 59_428_550);
    assert_eq!(fuzzy_match("fox", "fox-news"), 79_083_310);
}
