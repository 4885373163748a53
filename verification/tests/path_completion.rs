use slurm_tui::complete::{completion_display, completion_pattern, completions, shown_completion, sort_texts};

#[test]
fn pattern_relative_absolute_and_home() {
    assert_eq!(completion_pattern("sr", Some("/home/u"), None), "/home/u/sr*");
    assert_eq!(completion_pattern("/etc/ho", Some("/h"), None), "/etc/ho*");
    assert_eq!(completion_pattern("~/x", Some("/c"), Some("/h")), "/h/x*");
    assert_eq!(completion_pattern("~/x", Some("/c"), None), "/c/~/x*");
    assert_eq!(completion_pattern("a", None, None), "a*");
    assert_eq!(completion_pattern("", Some("/w"), None), "/w/*");
}

#[test]
fn shown_relative_to_cwd_with_slash_for_dirs() {
    assert_eq!(shown_completion("sr", Some("/home/u"), "/home/u/src", Some("src"), true), "src/");
    assert_eq!(shown_completion("sr", Some("/home/u"), "/home/u/src", None, false), "/home/u/src");
    assert_eq!(shown_completion("/sr", Some("/home/u"), "/srv", Some("x"), false), "/srv");
    assert_eq!(shown_completion("sr", None, "sr.txt", None, false), "sr.txt");
}

#[test]
fn display_strips_whole_components_only() {
    assert_eq!(completion_display("sr", Some("/home/u"), "/home/u/src", true), "src/");
    assert_eq!(completion_display("/etc/ho", Some("/h"), "/etc/hosts", false), "/etc/hosts");
    assert_eq!(completion_display("x", Some("/a/b"), "/a/bc/x", false), "/a/bc/x");
}

#[test]
fn sort_texts_in_string_order() {
    let v: Vec<String> = ["b", "a", "ab", "B", "", "a"].iter().map(|s| s.to_string()).collect();
    let mut expected = v.clone();
    expected.sort();
    assert_eq!(sort_texts(v), expected);
    let u: Vec<String> = ["é", "z", "e"].iter().map(|s| s.to_string()).collect();
    assert_eq!(sort_texts(u), vec!["e".to_string(), "z".to_string(), "é".to_string()]);
}

#[test]
fn completions_shown_and_sorted() {
    let found = vec![("/w/src".to_string(), true), ("/w/sb.txt".to_string(), false)];
    assert_eq!(completions("s", Some("/w"), &found), vec!["sb.txt".to_string(), "src/".to_string()]);
    assert!(completions("s", Some("/w"), &Vec::new()).is_empty());
}
