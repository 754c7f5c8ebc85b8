use pkgfuzz::rank::{rank, Package};

fn pkg(provider: &str, name: &str, version: &str, description: &str) -> Package {
    Package {
        provider: provider.to_string(),
        name: name.to_string(),
        version: version.to_string(),
        description: description.to_string(),
        score: 0,
    }
}

#[test]
fn ranks_fox_candidates() {
    let cands = vec![
        pkg("pacman", "firefox", "1", "a browser"),
        pkg("pacman", "fox-news", "2", "a feed"),
        pkg("aur", "box", "3", "a container"),
    ];
    let n = cands.len();
    let r = rank(cands, "fox", 0, n);
    // `box` has no `f` and is excluded; `fox-news` is a tighter prefix
    // match than `firefox` under the fixed weights.
    assert_eq!(r.len(), 2);
    assert_eq!(r[0].name, "fox-news");
    assert_eq!(r[0].score, 79_083_310);
    assert_eq!(r[1].name, "firefox");
    assert_eq!(r[1].score, 59_428_550);
}

#[test]
fn no_match_is_excluded_from_ranking() {
    let cands = vec![pkg("pacman", "abc", "1", "")];
    let r = rank(cands, "xyz", 0, 1);
    assert_eq!(r.len(), 0);
}

#[test]
fn equal_scores_keep_input_order() {
    // Same name twice: identical scores, so the stable sort must keep the
    // input order, told apart by the version field.
    let cands = vec![
        pkg("pacman", "abc", "first", ""),
        pkg("aur", "abc", "second", ""),
    ];
    let r = rank(cands, "abc", 0, 2);
    assert_eq!(r.len(), 2);
    assert_eq!(r[0].version, "first");
    assert_eq!(r[1].version, "second");
}

#[test]
fn ranking_scores_the_bare_name() {
    // The repository prefix is stripped before matching: `extra/fox`
    // scores as `fox` itself.
    let cands = vec![pkg("pacman", "extra/fox", "1", "")];
    let r = rank(cands, "fox", 0, 1);
    assert_eq!(r.len(), 1);
    assert_eq!(r[0].name, "extra/fox");
    assert_eq!(r[0].score, 101_999_980);
}

#[test]
fn truncation_caps_the_result_count() {
    let cands = vec![
        pkg("pacman", "firefox", "1", ""),
        pkg("pacman", "fox-news", "2", ""),
        pkg("pacman", "fox", "3", ""),
    ];
    let r = rank(cands, "fox", 0, 1);
    assert_eq!(r.len(), 1);
    assert_eq!(r[0].name, "fox");
}

#[test]
fn threshold_drops_low_scores() {
    let cands = vec![
        pkg("pacman", "fox", "1", ""),
        pkg("pacman", "f-o-x-spread-wide", "2", ""),
    ];
    let n = cands.len();
    let r = rank(cands, "fox", 60_000_000, n);
    assert_eq!(r.len(), 1);
    assert_eq!(r[0].name, "fox");
}

#[test]
fn ranking_twice_gives_the_same_order() {
    let mk = || {
        vec![
            pkg("pacman", "firefox", "1", ""),
            pkg("aur", "fox-news", "2", ""),
        ]
    };
    let a = rank(mk(), "fox", 0, 2);
    let b = rank(mk(), "fox", 0, 2);
    assert_eq!(a.len(), b.len());
    for k in 0..a.len() {
        assert_eq!(a[k].name, b[k].name);
        assert_eq!(a[k].score, b[k].score);
    }
}

#[test]
fn empty_name_is_treated_as_no_match() {
    let cands = vec![pkg("pacman", "", "1", "malformed record")];
    let r = rank(cands, "fox", 0, 1);
    assert_eq!(r.len(), 0);
}

#[test]
fn empty_query_ranks_nothing() {
    let cands = vec![pkg("pacman", "firefox", "1", "")];
    let r = rank(cands, "", 0, 1);
    assert_eq!(r.len(), 0);
}
