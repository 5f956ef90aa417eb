use project_search::pattern::{build_pattern_source, compile_pattern};

#[test]
fn literal_query_is_escaped() {
    assert_eq!(build_pattern_source("a.b", false, false), "a\\.b");
    assert_eq!(build_pattern_source("a.b", true, false), "a.b");
    assert_eq!(build_pattern_source("a.b", false, true), "\\ba\\.b\\b");
}

#[test]
fn literal_mode_matches_metacharacters_literally() {
    let pattern = compile_pattern("a.b", false, true, false).unwrap();
    assert!(pattern.is_match("a.b"));
    assert!(!pattern.is_match("axb"));
}

#[test]
fn whole_word_matches_only_the_standalone_word() {
    let pattern = compile_pattern("cat", false, true, true).unwrap();
    assert!(pattern.is_match("concatenate cat"));
    assert!(!pattern.is_match("concatenate"));
    assert_eq!(pattern.replace_all("concatenate cat", "dog"), "concatenate dog");
}

#[test]
fn case_sensitivity_follows_the_switch() {
    let strict = compile_pattern("Foo", false, true, false).unwrap();
    assert!(!strict.is_match("foo bar"));
    let relaxed = compile_pattern("Foo", false, false, false).unwrap();
    assert!(relaxed.is_match("foo bar"));
}
