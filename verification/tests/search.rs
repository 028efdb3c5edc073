use std::sync::atomic::AtomicBool;

use zipease_extract::search::pattern::{compile_glob, substring_match};
use zipease_extract::search::{
    detect_mode, search_entries, search_entries_with, search_with_cancel_check, SearchMode, SearchOutcome,
};

fn names(v: &[&str]) -> Vec<String> {
    v.iter().map(|s| s.to_string()).collect()
}

#[test]
fn mode_follows_wildcards() {
    assert_eq!(detect_mode("report"), SearchMode::Substring);
    assert_eq!(detect_mode("*.txt"), SearchMode::Glob);
    assert_eq!(detect_mode("file?.doc"), SearchMode::Glob);
    assert_eq!(detect_mode(""), SearchMode::Substring);
}

#[test]
fn substring_match_ignores_case_of_haystack() {
    assert!(substring_match("Docs/README.md", "readme"));
    assert!(!substring_match("Docs/README.md", "README"));
    assert!(substring_match("abc", ""));
    assert!(!substring_match("ab", "abc"));
}

#[test]
fn glob_without_separator_matches_at_any_depth() {
    let g = compile_glob("*.TXT").unwrap();
    assert!(g.is_match("a/b/notes.txt"));
    assert!(g.is_match("notes.txt"));
    assert!(!g.is_match("notes.txt.bak"));
}

#[test]
fn glob_with_separator_is_anchored() {
    let g = compile_glob("docs/*.md").unwrap();
    assert!(g.is_match("docs/a.md"));
    assert!(!g.is_match("x/docs/a.md"));
}

#[test]
fn invalid_glob_reports_an_error() {
    let e = compile_glob("[a-").err().unwrap();
    assert!(e.contains("**/[a-"));
}

#[test]
fn search_by_substring() {
    let entries = names(&["Photos/IMG_01.JPG", "notes.txt", "img/thumb.png"]);
    let flag = AtomicBool::new(false);
    assert_eq!(search_entries("img", &entries, &flag), vec![0, 2]);
}

#[test]
fn search_by_glob() {
    let entries = names(&["a/b.txt", "c.TXT", "d.md"]);
    let flag = AtomicBool::new(false);
    assert_eq!(search_entries("*.txt", &entries, &flag), vec![0, 1]);
}

#[test]
fn broken_glob_falls_back_to_substring() {
    let entries = names(&["x[a-?z", "plain"]);
    let flag = AtomicBool::new(false);
    assert_eq!(search_entries("[A-?", &entries, &flag), vec![0]);
}

#[test]
fn empty_pattern_finds_nothing() {
    let entries = names(&["a", "b"]);
    let flag = AtomicBool::new(false);
    assert!(search_entries("", &entries, &flag).is_empty());
}

#[test]
fn cancelled_search_returns_nothing() {
    let entries = names(&["a", "ab"]);
    let flag = AtomicBool::new(true);
    assert!(search_entries("a", &entries, &flag).is_empty());
}

#[test]
fn matches_come_in_ascending_order() {
    let entries = names(&["x1", "a", "x2", "b", "X3"]);
    let flag = AtomicBool::new(false);
    let found = search_entries("x", &entries, &flag);
    assert_eq!(found, vec![0, 2, 4]);
    assert!(found.windows(2).all(|w| w[0] < w[1]));
}

#[test]
fn cancellable_search_finds_matches() {
    let entries = names(&["a.txt", "b.rs", "dir/c.TXT"]);
    match search_with_cancel_check("*.txt", &entries, || false) {
        SearchOutcome::Found(v) => assert_eq!(v, vec![0, 2]),
        SearchOutcome::Cancelled => panic!("not cancelled"),
    }
}

#[test]
fn cancellable_search_stops_when_asked() {
    let entries = names(&["a.txt", "b.rs"]);
    assert!(matches!(
        search_with_cancel_check("a", &entries, || true),
        SearchOutcome::Cancelled
    ));
}

#[test]
fn cancellable_search_with_empty_pattern_never_asks() {
    let entries = names(&["a.txt"]);
    match search_with_cancel_check("", &entries, || true) {
        SearchOutcome::Found(v) => assert!(v.is_empty()),
        SearchOutcome::Cancelled => panic!("empty pattern is not cancelled"),
    }
}

#[test]
fn glob_too_deep_to_compile_is_an_error() {
    let pattern = format!("{}a{}", "{a,".repeat(1000), "}".repeat(1000));
    assert!(compile_glob(&pattern).is_err());
    let entries = names(&["a.txt"]);
    assert!(search_entries(&pattern, &entries, &AtomicBool::new(false)).is_empty());
}

#[test]
fn search_with_check_finds_or_cancels() {
    let entries = names(&["readme.md", "src/main.rs", "Thread.txt"]);
    assert_eq!(search_entries_with("READ", &entries, || false), Some(vec![0, 2]));
    assert_eq!(search_entries_with("READ", &entries, || true), None);
    assert_eq!(search_entries_with("", &entries, || true), Some(vec![]));
    assert_eq!(search_entries_with("READ", &[], || true), Some(vec![]));
}
