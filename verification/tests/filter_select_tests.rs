use repocat::filter::{build_patterns, classify, default_patterns, validate_patterns};
use repocat::select::{is_path_under_any, str_eq, tracked_files_multiple};
use repocat::types::IndexEntry;

#[test]
fn default_pattern_list_is_fixed() {
    let pats = default_patterns();
    let texts: Vec<&str> = pats.iter().map(|p| p.as_str()).collect();
    assert_eq!(texts, vec!["*.lock", "*.log", "**/*.csv", "**/*.mat"]);
}

#[test]
fn user_patterns_follow_the_defaults() {
    let user = vec![String::from("*.tmp"), String::from("build/**")];
    let pats = build_patterns(&user);
    assert_eq!(pats.len(), 6);
    assert_eq!(pats[4].as_str(), "*.tmp");
    assert_eq!(pats[5].as_str(), "build/**");
}

#[test]
fn log_files_are_always_excluded_by_the_log_default() {
    let pats = default_patterns();
    let hit = classify(&pats, "debug.log");
    assert_eq!(hit, Some(1));
    assert_eq!(pats[1].as_str(), "*.log");
    // Content plays no part: any path with the extension is excluded.
    assert_eq!(classify(&pats, "nested.log"), Some(1));
}

#[test]
fn csv_files_are_excluded_at_any_depth() {
    let pats = default_patterns();
    assert_eq!(classify(&pats, "secrets.csv"), Some(2));
    assert_eq!(classify(&pats, "data/deep/rows.csv"), Some(2));
}

#[test]
fn plain_files_are_admitted() {
    let pats = default_patterns();
    assert_eq!(classify(&pats, "src/main.rs"), None);
    assert_eq!(classify(&pats, "README.md"), None);
}

#[test]
fn first_matching_pattern_wins_for_reporting() {
    let user = vec![String::from("*.log")];
    let pats = build_patterns(&user);
    // Both the default at index 1 and the user copy at index 4 match; the
    // earlier one is reported.
    assert_eq!(classify(&pats, "x.log"), Some(1));
}

#[test]
fn invalid_pattern_is_found_by_validation() {
    let user = vec![String::from("[")];
    let pats = build_patterns(&user);
    assert_eq!(validate_patterns(&pats), Some(4));
    let fine = build_patterns(&Vec::new());
    assert_eq!(validate_patterns(&fine), None);
}

#[test]
fn string_equality_compares_characters() {
    assert!(str_eq("a/b.txt", "a/b.txt"));
    assert!(!str_eq("a/b.txt", "a/b.txd"));
    assert!(!str_eq("abc", "ab"));
}

#[test]
fn scope_prefix_matches_whole_components() {
    let bases = vec![String::from("src")];
    assert!(is_path_under_any("src/main.rs", &bases));
    assert!(is_path_under_any("src", &bases));
    assert!(!is_path_under_any("srcx/main.rs", &bases));
    assert!(!is_path_under_any("README.md", &bases));
}

#[test]
fn scope_basename_matches_a_named_file() {
    let bases = vec![String::from("docs/guide.md")];
    assert!(is_path_under_any("docs/guide.md", &bases));
    // A path equal to the base's final component also qualifies.
    assert!(is_path_under_any("guide.md", &bases));
    assert!(!is_path_under_any("other.md", &bases));
}

fn entry(path: &str, modified: Option<i64>) -> IndexEntry {
    IndexEntry { path: String::from(path), modified_secs: modified }
}

#[test]
fn selection_sorts_newest_first() {
    let entries = vec![
        entry("old.txt", Some(100)),
        entry("new.txt", Some(300)),
        entry("mid.txt", Some(200)),
    ];
    let listed = tracked_files_multiple(entries, &Vec::new());
    let order: Vec<&str> = listed.iter().map(|t| t.path.as_str()).collect();
    assert_eq!(order, vec!["new.txt", "mid.txt", "old.txt"]);
}

#[test]
fn selection_keeps_index_order_among_ties() {
    let entries = vec![
        entry("first.txt", Some(100)),
        entry("second.txt", Some(100)),
        entry("third.txt", Some(100)),
    ];
    let listed = tracked_files_multiple(entries, &Vec::new());
    let order: Vec<&str> = listed.iter().map(|t| t.path.as_str()).collect();
    assert_eq!(order, vec!["first.txt", "second.txt", "third.txt"]);
}

#[test]
fn missing_files_are_silently_dropped() {
    let entries = vec![
        entry("present.txt", Some(100)),
        entry("deleted.txt", None),
    ];
    let listed = tracked_files_multiple(entries, &Vec::new());
    assert_eq!(listed.len(), 1);
    assert_eq!(listed[0].path.as_str(), "present.txt");
}

#[test]
fn scoped_selection_keeps_only_matching_paths() {
    let entries = vec![
        entry("src/a.rs", Some(3)),
        entry("src/b.rs", Some(2)),
        entry("docs/c.md", Some(1)),
    ];
    let scopes = vec![String::from("src")];
    let listed = tracked_files_multiple(entries, &scopes);
    let order: Vec<&str> = listed.iter().map(|t| t.path.as_str()).collect();
    assert_eq!(order, vec!["src/a.rs", "src/b.rs"]);
}
