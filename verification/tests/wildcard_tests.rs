use simterm::wildcard::{expand_name_pattern, match_wild, split_at_star, wild_matches};

fn pair(a: &str, b: &str) -> Option<(String, String)> {
    Some((a.to_string(), b.to_string()))
}

#[test]
fn split_at_star_splits_at_first_star() {
    assert_eq!(split_at_star("*.rs"), pair("", ".rs"));
    assert_eq!(split_at_star("a*b*c"), pair("a", "b*c"));
    assert_eq!(split_at_star("abc"), None);
}

#[test]
fn split_at_star_honours_escapes() {
    assert_eq!(split_at_star("a\\*b"), None);
    assert_eq!(split_at_star("a\\*b*c"), pair("a*b", "c"));
    assert_eq!(split_at_star("x*y\\"), pair("x", "y\\"));
    assert_eq!(split_at_star("a\\b*c"), pair("a\\b", "c"));
    assert_eq!(split_at_star("x*a\\b"), pair("x", "a\\b"));
    assert_eq!(split_at_star("\\\\*"), None);
}

#[test]
fn match_wild_strips_both_ends() {
    assert_eq!(match_wild("main.rs", "ma", ".rs"), Some("in".to_string()));
    assert_eq!(match_wild("a.rs", "a", ".rs"), Some("".to_string()));
    assert_eq!(match_wild("ab", "ab", "b"), None);
    assert_eq!(match_wild("main.rs", "x", ".rs"), None);
}

#[test]
fn wild_matches_keeps_order() {
    let names = vec!["a.rs".to_string(), "b.txt".to_string(), "c.rs".to_string()];
    assert_eq!(wild_matches(&names, "", ".rs"), vec!["a", "c"]);
}

#[test]
fn expand_name_pattern_with_and_without_star() {
    let names = vec!["a.rs".to_string(), "b.txt".to_string(), "c.rs".to_string()];
    let (wild, before, after) = expand_name_pattern("*.rs".to_string(), &names);
    assert_eq!(wild, vec!["a", "c"]);
    assert_eq!(before, "");
    assert_eq!(after, ".rs");
    let (wild, before, after) = expand_name_pattern("plain".to_string(), &names);
    assert_eq!(wild, vec!["plain"]);
    assert_eq!(before, "");
    assert_eq!(after, "");
}
