use kite_agent::glob::{name_matches, NamePattern, SearchHits};

#[test]
fn wildcard_patterns() {
    assert!(name_matches("*.py", "Main.PY"));
    assert!(!name_matches("*.py", "main.pyc"));
    assert!(name_matches("report*", "Report_2024.txt"));
    assert!(!name_matches("report*", "old_report.txt"));
    assert!(name_matches("a*c", "abc"));
    assert!(!name_matches("a*c", "ab"));
    assert!(name_matches("a*b*c", "aXbYc"));
    assert!(!name_matches("a*b*c", "acb"));
    assert!(name_matches("*", "anything"));
    assert!(name_matches("**", ""));
    assert!(!name_matches("ab*b", "ab"));
    assert!(name_matches("*ab*ab", "xabab"));
}

#[test]
fn plain_patterns_are_substrings() {
    assert!(name_matches("abc", "xxABCxx"));
    assert!(!name_matches("abd", "xxabcxx"));
    assert!(name_matches("", "whatever"));
    let p = NamePattern::new("NOTE");
    assert!(p.matches("my notes.md"));
}

#[test]
fn hits_are_normalized_sorted_and_capped() {
    let mut h = SearchHits::new();
    h.add("sub\\b.txt");
    h.add("a.txt");
    assert!(!h.is_full());
    assert_eq!(h.report("*.txt"), "a.txt\nsub/b.txt");
    let mut h = SearchHits::new();
    for i in 0..200 {
        h.add(&format!("f{}", i));
    }
    assert!(h.is_full());
    assert_eq!(SearchHits::new().report("*.zz"), "(no files matching \"*.zz\")");
}

#[test]
fn lowered_patterns_match_as_given() {
    let p = NamePattern::from_lowered("*.rs");
    assert!(p.matches_lowered("lib.rs"));
    assert!(!p.matches_lowered("LIB.RS"));
    assert!(p.matches("LIB.RS"));
    let q = NamePattern::from_lowered("Main");
    assert!(!q.matches("main.c"));
    assert!(q.matches_lowered("xMainy"));
}

#[test]
fn hits_stop_at_the_limit() {
    let mut h = SearchHits::new();
    for i in 0..250 {
        h.add(&format!("d\\f{:03}.txt", i));
    }
    assert!(h.is_full());
    let r = h.report("*.txt");
    let lines: Vec<&str> = r.split('\n').collect();
    assert_eq!(lines.len(), 200);
    assert_eq!(lines[0], "d/f000.txt");
    assert_eq!(lines[199], "d/f199.txt");
}
