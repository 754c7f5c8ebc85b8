use pkgfuzz::cache::DetailsCache;
use pkgfuzz::detail::{ellipsize, format_detail_lines};
use pkgfuzz::input::{search_decision, InputState, SearchAction};
use pkgfuzz::rank::Package;
use pkgfuzz::select::{partition_selected, pure_names};

#[test]
fn input_editing_round_trip() {
    let mut s = InputState::new();
    s.enter_char('f');
    s.enter_char('o');
    s.enter_char('x');
    assert_eq!(s.chars, vec!['f', 'o', 'x']);
    assert_eq!(s.cursor, 3);
    s.move_cursor_left();
    s.delete_char();
    assert_eq!(s.chars, vec!['f', 'x']);
    assert_eq!(s.cursor, 1);
    s.enter_char('i');
    assert_eq!(s.chars, vec!['f', 'i', 'x']);
    s.move_cursor_right();
    s.move_cursor_right();
    assert_eq!(s.cursor, 3);
    s.reset_cursor();
    assert_eq!(s.cursor, 0);
    s.delete_char();
    assert_eq!(s.chars, vec!['f', 'i', 'x']);
    s.clear();
    assert_eq!(s.chars.len(), 0);
    assert_eq!(s.cursor, 0);
}

#[test]
fn cursor_stays_inside_the_text() {
    let mut s = InputState::new();
    s.move_cursor_left();
    assert_eq!(s.cursor, 0);
    s.move_cursor_right();
    assert_eq!(s.cursor, 0);
    s.enter_char('a');
    s.move_cursor_right();
    assert_eq!(s.cursor, 1);
}

#[test]
fn debounce_waits_until_the_window_elapses() {
    assert!(matches!(
        search_decision(true, 50, 100, "fox", ""),
        SearchAction::Wait
    ));
    assert!(matches!(
        search_decision(false, 500, 100, "fox", ""),
        SearchAction::Wait
    ));
    assert!(matches!(
        search_decision(true, 100, 100, "fox", ""),
        SearchAction::Start
    ));
}

#[test]
fn debounce_clears_on_empty_input() {
    assert!(matches!(
        search_decision(true, 200, 100, "   ", "fox"),
        SearchAction::Clear
    ));
}

#[test]
fn debounce_skips_repeated_query() {
    assert!(matches!(
        search_decision(true, 200, 100, " fox ", "fox"),
        SearchAction::Wait
    ));
    assert!(matches!(
        search_decision(true, 200, 100, " foxy ", "fox"),
        SearchAction::Start
    ));
}

#[test]
fn cache_keeps_the_first_result() {
    let mut c = DetailsCache::new();
    assert!(c.lookup("firefox").is_none());
    c.insert(
        "firefox".to_string(),
        vec![("Version".to_string(), "1".to_string())],
    );
    let hit = c.lookup("firefox").expect("inserted entry must be found");
    assert_eq!(hit[0].1, "1");
    // A second insert under the same key changes nothing.
    c.insert(
        "firefox".to_string(),
        vec![("Version".to_string(), "2".to_string())],
    );
    let hit2 = c.lookup("firefox").unwrap();
    assert_eq!(hit2[0].1, "1");
    assert!(c.lookup("fox").is_none());
}

#[test]
fn partition_splits_by_provider() {
    let pkgs = vec![
        Package {
            provider: "pacman".to_string(),
            name: "extra/firefox".to_string(),
            version: "1".to_string(),
            description: String::new(),
            score: 10,
        },
        Package {
            provider: "aur".to_string(),
            name: "fox-git".to_string(),
            version: "2".to_string(),
            description: String::new(),
            score: 9,
        },
        Package {
            provider: "other".to_string(),
            name: "box".to_string(),
            version: "3".to_string(),
            description: String::new(),
            score: 8,
        },
    ];
    let selected = vec![
        "extra/firefox".to_string(),
        "fox-git".to_string(),
        "box".to_string(),
        "unknown".to_string(),
    ];
    let (pac, aur) = partition_selected(&pkgs, &selected);
    assert_eq!(pac, vec!["extra/firefox".to_string()]);
    assert_eq!(aur, vec!["fox-git".to_string()]);
}

#[test]
fn pure_names_strip_prefixes() {
    let names = vec!["extra/firefox".to_string(), "fox".to_string()];
    let bare = pure_names(&names);
    assert_eq!(bare, vec!["firefox".to_string(), "fox".to_string()]);
}

#[test]
fn ellipsize_cuts_long_names() {
    assert_eq!(ellipsize("superlongpackagename", 12, 8), "superlon...");
    assert_eq!(ellipsize("short", 12, 8), "short");
    assert_eq!(ellipsize("exactlytwelve", 13, 8), "exactlytwelve");
}

#[test]
fn detail_lines_align_and_wrap() {
    let r = format_detail_lines("Name", "firefox is a browser", 15, 30);
    assert_eq!(r.len(), 2);
    assert_eq!(r[0], "Name           : firefox is a");
    assert_eq!(r[1], "                 browser");
}

#[test]
fn detail_lines_fit_on_one_line() {
    let r = format_detail_lines("Version", "1.0", 15, 40);
    assert_eq!(r.len(), 1);
    assert_eq!(r[0], "Version        : 1.0");
}
