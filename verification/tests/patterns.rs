use rtree::patterns::{glob_to_regex, split_segments, trim_str, CompiledPatterns};

#[test]
fn compiled_patterns_exact_match() {
    let patterns = CompiledPatterns::new("node_modules").unwrap();
    assert!(patterns.matches("node_modules"));
    assert!(!patterns.matches("node_modules_extra"));
    assert!(!patterns.matches("my_node_modules"));
}

#[test]
fn compiled_patterns_pipe_separated() {
    let patterns = CompiledPatterns::new("node_modules|dist|.git").unwrap();
    assert!(patterns.matches("dist"));
    assert!(patterns.matches(".git"));
    assert!(!patterns.matches("src"));
}

#[test]
fn compiled_patterns_handles_whitespace() {
    let patterns = CompiledPatterns::new("node_modules | dist | .git").unwrap();
    assert!(patterns.matches("dist"));
    let patterns2 = CompiledPatterns::new("  .git  ").unwrap();
    assert!(patterns2.matches(".git"));
}

#[test]
fn compiled_patterns_empty_segments_ignored() {
    let patterns = CompiledPatterns::new("node_modules||dist").unwrap();
    assert!(!patterns.matches(""));
    assert!(patterns.matches("dist"));
}

#[test]
fn compiled_patterns_star_wildcard() {
    let patterns = CompiledPatterns::new("*.log").unwrap();
    assert!(patterns.matches("test.log"));
    assert!(patterns.matches("app.log"));
    assert!(patterns.matches(".log"));
    assert!(!patterns.matches("test.txt"));

    let patterns = CompiledPatterns::new("test_*").unwrap();
    assert!(patterns.matches("test_foo"));
    assert!(patterns.matches("test_"));
    assert!(!patterns.matches("other_foo"));

    let patterns = CompiledPatterns::new("test_*_bar").unwrap();
    assert!(patterns.matches("test_foo_bar"));
    assert!(patterns.matches("test__bar"));
    assert!(!patterns.matches("test_foo_baz"));

    let patterns = CompiledPatterns::new("*_*_*").unwrap();
    assert!(patterns.matches("a_b_c"));
    assert!(patterns.matches("__"));
}

#[test]
fn compiled_patterns_question_wildcard() {
    let patterns = CompiledPatterns::new("?.txt").unwrap();
    assert!(patterns.matches("a.txt"));
    assert!(patterns.matches("b.txt"));
    assert!(!patterns.matches("ab.txt"));
    assert!(!patterns.matches(".txt"));

    let patterns = CompiledPatterns::new("??.txt").unwrap();
    assert!(patterns.matches("ab.txt"));
    assert!(!patterns.matches("a.txt"));
    assert!(!patterns.matches("abc.txt"));
}

#[test]
fn compiled_patterns_combined_wildcards() {
    let patterns = CompiledPatterns::new("test?.log").unwrap();
    assert!(patterns.matches("test1.log"));
    assert!(patterns.matches("test2.log"));
    assert!(!patterns.matches("test12.log"));

    let patterns = CompiledPatterns::new("file*.*").unwrap();
    assert!(patterns.matches("file1.txt"));
    assert!(patterns.matches("file123.txt"));
    assert!(patterns.matches("file.txt"));
}

#[test]
fn compiled_patterns_escapes_regex_special_chars() {
    let patterns = CompiledPatterns::new("test.txt").unwrap();
    assert!(patterns.matches("test.txt"));
    assert!(!patterns.matches("testXtxt"));

    let patterns = CompiledPatterns::new("file[1].txt").unwrap();
    assert!(patterns.matches("file[1].txt"));
    let patterns = CompiledPatterns::new("a+b").unwrap();
    assert!(patterns.matches("a+b"));
    let patterns = CompiledPatterns::new("(test)").unwrap();
    assert!(patterns.matches("(test)"));
}

#[test]
fn compiled_patterns_mixed_exact_and_glob() {
    let patterns = CompiledPatterns::new("node_modules|*.log|dist").unwrap();
    assert!(patterns.matches("node_modules"));
    assert!(patterns.matches("dist"));
    assert!(patterns.matches("debug.log"));
    assert!(patterns.matches("error.log"));
    assert!(!patterns.matches("main.rs"));
}

#[test]
fn segment_order_does_not_affect_matching() {
    let p = CompiledPatterns::new("node_modules|*.log|dist").unwrap();
    let q = CompiledPatterns::new("dist|*.log|node_modules").unwrap();
    for name in ["node_modules", "dist", "debug.log", "main.rs", ""] {
        assert_eq!(p.matches(name), q.matches(name));
    }
}

#[test]
fn all_empty_pattern_matches_nothing() {
    let patterns = CompiledPatterns::new("").unwrap();
    assert!(!patterns.matches(""));
    assert!(!patterns.matches("anything"));
    let patterns = CompiledPatterns::new(" | ").unwrap();
    assert!(!patterns.matches(""));
    assert!(!patterns.matches("a"));
}

#[test]
fn glob_translation_anchors_and_escapes() {
    assert_eq!(glob_to_regex("a*b?.txt"), "^a.*b.\\.txt$");
    assert_eq!(glob_to_regex("*"), "^.*$");
    assert_eq!(glob_to_regex("a+(b)|c"), "^a\\+\\(b\\)\\|c$");
    assert_eq!(glob_to_regex(""), "^$");
}

#[test]
fn split_keeps_empty_and_raw_segments() {
    let segs = split_segments("a||b | c");
    let segs: Vec<&str> = segs.into_iter().collect();
    assert_eq!(segs, vec!["a", "", "b ", " c"]);
    let segs = split_segments("");
    let segs: Vec<&str> = segs.into_iter().collect();
    assert_eq!(segs, vec![""]);
}

#[test]
fn trim_removes_surrounding_whitespace_only() {
    assert_eq!(trim_str("  a b\t"), "a b");
    assert_eq!(trim_str("\n\r"), "");
    assert_eq!(trim_str("x"), "x");
}

#[test]
fn oversized_glob_pattern_reports_the_offending_pattern() {
    // Enough wildcards to push the compiled regex over the regex crate's
    // size limit: the one way a syntactically valid glob can fail.
    let pattern = "*".repeat(300_000);
    let err = match CompiledPatterns::new(&pattern) {
        Ok(_) => panic!("a pattern past the size limit should not compile"),
        Err(err) => err,
    };
    assert!(err.starts_with("Invalid ignore pattern: "));
    assert!(err.ends_with(&pattern));
}

#[test]
fn wildcard_free_pattern_never_compiles_a_regex() {
    // A single trimmed literal matches itself and no extension of itself.
    let patterns = CompiledPatterns::new("exact-name").unwrap();
    assert!(patterns.matches("exact-name"));
    assert!(!patterns.matches("exact-namex"));
    assert!(!patterns.matches("exact-nam"));
}
