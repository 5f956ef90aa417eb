use project_search::error::SearchError;
use project_search::model::{
    FileProbe, FileWrite, MatchPreview, ReplaceRequest, ReplaceResult, SearchRequest, SourceFile,
};
use project_search::pattern::compile_pattern;
use project_search::replace::{
    plan_file, prepare_replacement, replace_files, rewrite_lines, FilePlan, ReplaceSession,
};

fn request(query: &str, replacement: &str, dry_run: bool) -> ReplaceRequest {
    ReplaceRequest {
        search: SearchRequest {
            query: query.to_string(),
            path: "/project".to_string(),
            excludes: vec![],
            includes: vec![],
            max_file_size: 1_000_000,
            case_sensitive: true,
            whole_word: false,
            is_regex: false,
            additional_paths: vec![],
        },
        replacement: replacement.to_string(),
        dry_run,
    }
}

fn file(path: &str, text: &str) -> SourceFile {
    SourceFile {
        probe: FileProbe { path: path.to_string(), is_file: true, size: Some(text.len() as u64) },
        text: Some(text.to_string()),
    }
}

fn preview(line: usize, original: &str, replacement: &str) -> MatchPreview {
    MatchPreview { line, original: original.to_string(), replacement: replacement.to_string() }
}

#[test]
fn dry_run_previews_each_matching_line_and_writes_nothing() {
    let walked = vec![file("/project/a.txt", "  let foo = 1;\nbar\r\nfoo(foo)\n")];
    let report = replace_files(&request("foo", "qux", true), &walked, &vec![]).unwrap();
    assert_eq!(
        report.results,
        vec![ReplaceResult {
            file_path: "/project/a.txt".to_string(),
            matches: vec![preview(1, "let foo = 1;", "let qux = 1;"), preview(3, "foo(foo)", "qux(qux)")],
            replaced_count: 2,
        }]
    );
    assert!(report.writes.is_empty());
}

#[test]
fn real_run_rewrites_the_whole_content() {
    let walked = vec![file("/project/a.txt", "  let foo = 1;\nbar\r\nfoo(foo)\n")];
    let report = replace_files(&request("foo", "qux", false), &walked, &vec![]).unwrap();
    assert_eq!(
        report.results,
        vec![ReplaceResult {
            file_path: "/project/a.txt".to_string(),
            matches: vec![],
            replaced_count: 1,
        }]
    );
    assert_eq!(
        report.writes,
        vec![FileWrite {
            path: "/project/a.txt".to_string(),
            content: "  let qux = 1;\nbar\r\nqux(qux)\n".to_string(),
        }]
    );
}

#[test]
fn file_without_a_match_is_left_alone() {
    let walked = vec![file("/project/a.txt", "nothing to see\n")];
    let report = replace_files(&request("foo", "qux", false), &walked, &vec![]).unwrap();
    assert!(report.results.is_empty());
    assert!(report.writes.is_empty());
    let preview = replace_files(&request("foo", "qux", true), &walked, &vec![]).unwrap();
    assert!(preview.results.is_empty());
}

#[test]
fn replacement_that_changes_nothing_is_not_written() {
    let walked = vec![file("/project/a.txt", "foo\n")];
    let report = replace_files(&request("foo", "foo", false), &walked, &vec![]).unwrap();
    assert!(report.results.is_empty());
    assert!(report.writes.is_empty());
}

#[test]
fn dry_run_twice_gives_the_same_outcomes() {
    let walked = vec![file("/project/a.txt", "foo\nfoo bar\n"), file("/project/b.txt", "no")];
    let extras = vec![file("/other/c.txt", "a foo")];
    let first = replace_files(&request("foo", "qux", true), &walked, &extras).unwrap();
    let second = replace_files(&request("foo", "qux", true), &walked, &extras).unwrap();
    assert_eq!(first, second);
    assert_eq!(first.results.len(), 2);
}

#[test]
fn capture_groups_are_substituted_in_the_replacement() {
    let mut swap = request("(\\w+)=(\\w+)", "$2=$1", false);
    swap.search.is_regex = true;
    let report = replace_files(&swap, &vec![file("/project/a.txt", "key=value\n")], &vec![])
        .unwrap();
    assert_eq!(report.writes[0].content, "value=key\n");
}

#[test]
fn pattern_across_lines_is_neither_previewed_nor_replaced() {
    let mut across = request("a\\nb", "ab", true);
    across.search.is_regex = true;
    let walked = vec![file("/project/a.txt", "a\nb\n")];
    let shown = replace_files(&across, &walked, &vec![]).unwrap();
    assert!(shown.results.is_empty());
    across.dry_run = false;
    let done = replace_files(&across, &walked, &vec![]).unwrap();
    assert!(done.results.is_empty());
    assert!(done.writes.is_empty());
}

#[test]
fn line_longer_than_ten_thousand_characters_is_never_rewritten() {
    let long = "a".repeat(10_001);
    let text = format!("{}\nab\n", long);
    let mut only_extras = request("a", "b", false);
    only_extras.search.path = String::new();
    let extras = vec![file("/x/a.txt", &text)];
    let done = replace_files(&only_extras, &vec![], &extras).unwrap();
    assert_eq!(
        done.results,
        vec![ReplaceResult { file_path: "/x/a.txt".to_string(), matches: vec![], replaced_count: 1 }]
    );
    assert_eq!(done.writes[0].content, format!("{}\nbb\n", long));
    only_extras.dry_run = true;
    let shown = replace_files(&only_extras, &vec![], &extras).unwrap();
    assert_eq!(shown.results[0].matches, vec![preview(2, "ab", "bb")]);
}

#[test]
fn line_at_the_limit_with_its_terminator_is_rewritten() {
    let text = format!("{}\n", "a".repeat(9_999));
    let done = replace_files(&request("a", "b", false), &vec![file("/project/a.txt", &text)], &vec![])
        .unwrap();
    assert_eq!(done.writes[0].content, format!("{}\n", "b".repeat(9_999)));
}

#[test]
fn literal_query_puts_the_replacement_in_as_it_stands() {
    let mut plain = request("cost", "[$0] ${x}$$", true);
    plain.search.case_sensitive = false;
    plain.search.path = String::new();
    let extras = vec![file("/x/a.txt", "cost")];
    let shown = replace_files(&plain, &vec![], &extras).unwrap();
    assert_eq!(
        shown.results,
        vec![ReplaceResult {
            file_path: "/x/a.txt".to_string(),
            matches: vec![preview(1, "cost", "[$0] ${x}$$")],
            replaced_count: 1,
        }]
    );
    plain.dry_run = false;
    let done = replace_files(&plain, &vec![], &extras).unwrap();
    assert_eq!(done.writes[0].content, "[$0] ${x}$$");
}

#[test]
fn regex_query_refers_to_the_whole_match_with_dollar_zero() {
    let mut bracket = request("c.st", "[$0]", true);
    bracket.search.is_regex = true;
    let shown = replace_files(&bracket, &vec![file("/project/a.txt", "cost cast")], &vec![])
        .unwrap();
    assert_eq!(shown.results[0].matches, vec![preview(1, "cost cast", "[cost] [cast]")]);
}

#[test]
fn replacement_is_prepared_for_the_engine() {
    assert_eq!(prepare_replacement("a$b$$", false), "a$$b$$$$");
    assert_eq!(prepare_replacement("a$b$$", true), "a$b$$");
    assert_eq!(prepare_replacement("", false), "");
}

#[test]
fn dry_run_and_real_run_agree_line_for_line() {
    let text = "foo one\r\nbar\n  foo foo\nlast foo";
    let walked = vec![file("/project/a.txt", text)];
    let shown = replace_files(&request("foo", "quux", true), &walked, &vec![]).unwrap();
    let done = replace_files(&request("foo", "quux", false), &walked, &vec![]).unwrap();
    let before: Vec<&str> = text.lines().collect();
    let after: Vec<&str> = done.writes[0].content.lines().collect();
    assert_eq!(before.len(), after.len());
    let previews = &shown.results[0].matches;
    for number in 1..=before.len() {
        match previews.iter().find(|preview| preview.line == number) {
            Some(preview) => assert_eq!(after[number - 1].trim(), preview.replacement),
            None => assert_eq!(after[number - 1], before[number - 1]),
        }
    }
    assert_eq!(done.writes[0].content, "quux one\r\nbar\n  quux quux\nlast quux");
}

#[test]
fn rewritten_lines_keep_their_terminators() {
    let pattern = compile_pattern("x", false, true, false).unwrap();
    assert_eq!(rewrite_lines(&pattern, "y", "x\r\nz\nx"), "y\r\nz\ny");
    assert_eq!(rewrite_lines(&pattern, "y", ""), "");
}

#[test]
fn failed_write_names_the_path_of_the_file() {
    let write = FileWrite { path: "/project/a.txt".to_string(), content: "new".to_string() };
    let error = write.failure("disk full".to_string());
    assert_eq!(error.message(), "Failed to write file /project/a.txt: disk full");
}

#[test]
fn replacement_fails_only_where_the_pattern_does_not_compile() {
    let mut literal = request("foo(bar[", "x", true);
    assert!(replace_files(&literal, &vec![], &vec![]).is_ok());
    assert!(ReplaceSession::start(&literal).is_ok());
    literal.search.is_regex = true;
    assert!(replace_files(&literal, &vec![], &vec![]).is_err());
    assert!(ReplaceSession::start(&literal).is_err());
    let mut unreadable = file("/project/locked", "foo");
    unreadable.text = None;
    let mut missing = file("/project/gone", "foo");
    missing.probe.is_file = false;
    missing.probe.size = None;
    assert!(replace_files(&request("foo", "x", false), &vec![unreadable, missing], &vec![]).is_ok());
}

#[test]
fn file_in_tree_and_in_additional_paths_is_replaced_once() {
    let walked = vec![file("/project/a.txt", "foo")];
    let extras = vec![file("/project/a.txt", "foo"), file("/other/b.txt", "foo")];
    let report = replace_files(&request("foo", "qux", false), &walked, &extras).unwrap();
    let paths: Vec<&str> = report.writes.iter().map(|write| write.path.as_str()).collect();
    assert_eq!(paths, vec!["/project/a.txt", "/other/b.txt"]);
    assert_eq!(report.results.len(), 2);
}

#[test]
fn replacement_stops_at_five_hundred_outcomes() {
    let mut walked = Vec::new();
    for i in 0..600 {
        walked.push(file(&format!("/project/{}.txt", i), "foo"));
    }
    let shown = replace_files(&request("foo", "qux", true), &walked, &vec![]).unwrap();
    assert_eq!(shown.results.len(), 500);
    assert_eq!(shown.results[499].file_path, "/project/499.txt");
    let done = replace_files(&request("foo", "qux", false), &walked, &vec![]).unwrap();
    assert_eq!(done.results.len(), 500);
    assert_eq!(done.writes.len(), 500);
}

#[test]
fn invalid_pattern_fails_the_replacement() {
    let mut broken = request("[", "x", true);
    broken.search.is_regex = true;
    let error = replace_files(&broken, &vec![file("/project/a.txt", "[")], &vec![]).unwrap_err();
    assert!(matches!(error, SearchError::InvalidPattern { .. }));
}

#[test]
fn write_failure_names_the_path() {
    let error = SearchError::WriteFailed {
        path: "/project/a.txt".to_string(),
        detail: "permission denied".to_string(),
    };
    assert_eq!(error.message(), "Failed to write file /project/a.txt: permission denied");
    let invalid = SearchError::InvalidPattern { detail: "unclosed group".to_string() };
    assert_eq!(invalid.message(), "Invalid regex: unclosed group");
}

#[test]
fn plan_for_one_file() {
    let pattern = compile_pattern("foo", false, true, false).unwrap();
    let text = "foo\n".to_string();
    assert_eq!(
        plan_file(&pattern, "bar", false, "a.txt", &text),
        FilePlan {
            outcome: Some(ReplaceResult {
                file_path: "a.txt".to_string(),
                matches: vec![],
                replaced_count: 1,
            }),
            new_content: Some("bar\n".to_string()),
        }
    );
    let other = "other\n".to_string();
    assert_eq!(
        plan_file(&pattern, "bar", false, "a.txt", &other),
        FilePlan { outcome: None, new_content: None }
    );
}

#[test]
fn session_hands_back_what_is_to_be_written() {
    let pattern = compile_pattern("foo", false, true, false).unwrap();
    let mut session = ReplaceSession::new(pattern, "bar".to_string(), false, 10);
    let probe = FileProbe { path: "a.txt".to_string(), is_file: true, size: Some(4) };
    assert!(session.accept(&probe));
    let write = session.process(&"foo\n".to_string());
    assert_eq!(write, Some(FileWrite { path: "a.txt".to_string(), content: "bar\n".to_string() }));
    assert_eq!(session.process(&"foo\n".to_string()), None);
    assert!(!session.accept(&probe));
    let big = FileProbe { path: "big.txt".to_string(), is_file: true, size: Some(11) };
    assert!(!session.accept(&big));
    assert_eq!(session.into_results().len(), 1);
}
