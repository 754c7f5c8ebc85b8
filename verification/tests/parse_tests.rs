use pkgfuzz::normalize::pure_name;
use pkgfuzz::parse::{
    first_two_tokens, parse_alternating_lines, parse_detail_lines, parse_records, trim_str,
};

fn lines(v: &[&str]) -> Vec<String> {
    v.iter().map(|s| s.to_string()).collect()
}

#[test]
fn parses_name_version_pairs() {
    let input = lines(&[
        "extra/firefox 131.0-1 [installed]",
        "    Fast and private browser.",
        "extra/foxglove 2.1-1",
        "    A monitoring tool.",
    ]);
    let r = parse_records(&input, &"pacman".to_string());
    assert_eq!(r.len(), 2);
    assert_eq!(r[0].name, "extra/firefox");
    assert_eq!(r[0].version, "131.0-1");
    assert_eq!(r[0].description, "Fast and private browser.");
    assert_eq!(r[0].provider, "pacman");
    assert_eq!(r[0].score, 0);
    assert_eq!(r[1].name, "extra/foxglove");
    assert_eq!(r[1].version, "2.1-1");
}

#[test]
fn header_without_version_is_skipped() {
    let input = lines(&["loneword", "    description", "a b", "    d"]);
    let r = parse_records(&input, &"pacman".to_string());
    assert_eq!(r.len(), 1);
    assert_eq!(r[0].name, "a");
    assert_eq!(r[0].version, "b");
}

#[test]
fn dangling_last_line_is_ignored() {
    let input = lines(&["a 1", "    d", "dangling 2"]);
    let r = parse_records(&input, &"aur".to_string());
    assert_eq!(r.len(), 1);
    assert_eq!(r[0].name, "a");
}

#[test]
fn empty_listing_parses_to_nothing() {
    let input: Vec<String> = Vec::new();
    let r = parse_records(&input, &"pacman".to_string());
    assert_eq!(r.len(), 0);
}

#[test]
fn parse_and_rank_orders_by_score() {
    let input = lines(&[
        "extra/firefox 131.0-1",
        "    Fast and private browser.",
        "extra/fox-news 1.0-1",
        "    A feed reader.",
        "extra/box 2.0-1",
        "    A container.",
    ]);
    let r = parse_alternating_lines(&input, &"pacman".to_string(), "fox");
    assert_eq!(r.len(), 2);
    assert_eq!(r[0].name, "extra/fox-news");
    assert_eq!(r[1].name, "extra/firefox");
    assert!(r[0].score > r[1].score);
}

#[test]
fn trims_whitespace() {
    assert_eq!(trim_str("   spaced out \t"), "spaced out");
    assert_eq!(trim_str("\t\n  "), "");
    assert_eq!(trim_str("clean"), "clean");
    assert_eq!(trim_str(""), "");
}

#[test]
fn splits_first_two_tokens() {
    let t = first_two_tokens("  name  1.2.3   extra words").unwrap();
    assert_eq!(t.0, "name");
    assert_eq!(t.1, "1.2.3");
    assert_eq!(first_two_tokens("single"), None);
    assert_eq!(first_two_tokens("   "), None);
    assert_eq!(first_two_tokens(""), None);
}

#[test]
fn parses_detail_lines() {
    let input = lines(&[
        "Name            : firefox",
        "Version         : 131.0-1",
        "no separator here",
        "Description     : Fast browser : with colons",
    ]);
    let r = parse_detail_lines(&input);
    assert_eq!(r.len(), 3);
    assert_eq!(r[0], ("Name".to_string(), "firefox".to_string()));
    assert_eq!(r[1], ("Version".to_string(), "131.0-1".to_string()));
    // The split happens at the first separator only.
    assert_eq!(
        r[2],
        (
            "Description".to_string(),
            "Fast browser : with colons".to_string()
        )
    );
}

#[test]
fn strips_repository_prefix() {
    assert_eq!(pure_name("extra/firefox"), "firefox");
    assert_eq!(pure_name("firefox"), "firefox");
    assert_eq!(pure_name("a/b/c"), "c");
    assert_eq!(pure_name("trailing/"), "");
    assert_eq!(pure_name(""), "");
}
