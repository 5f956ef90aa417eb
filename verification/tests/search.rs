use project_search::error::SearchError;
use project_search::model::{FileProbe, SearchRequest, SearchResult, SourceFile};
use project_search::pattern::compile_pattern;
use project_search::scan::{examine_line, LineOutcome};
use project_search::search::{search_files, LineRead, SearchSession};

fn request(query: &str) -> SearchRequest {
    SearchRequest {
        query: query.to_string(),
        path: "/project".to_string(),
        excludes: vec![],
        includes: vec![],
        max_file_size: 1_000_000,
        case_sensitive: false,
        whole_word: false,
        is_regex: false,
        additional_paths: vec![],
    }
}

fn file(path: &str, text: &str) -> SourceFile {
    SourceFile {
        probe: FileProbe { path: path.to_string(), is_file: true, size: Some(text.len() as u64) },
        text: Some(text.to_string()),
    }
}

fn hit(path: &str, line: usize, content: &str) -> SearchResult {
    SearchResult {
        file_path: path.to_string(),
        line_number: line,
        line_content: content.to_string(),
    }
}

#[test]
fn two_files_give_one_hit_each() {
    let walked = vec![file("/project/a.txt", "hello world"), file("/project/b.txt", "hello moon")];
    let found = search_files(&request("hello"), &walked, &vec![]).unwrap();
    assert_eq!(
        found,
        vec![hit("/project/a.txt", 1, "hello world"), hit("/project/b.txt", 1, "hello moon")]
    );
}

#[test]
fn every_line_counts_towards_the_line_number() {
    let long = "needle ".repeat(2000);
    let text = format!("first\n{}\n  needle here \r\nlast needle", long);
    let found = search_files(&request("needle"), &vec![file("/project/a.txt", &text)], &vec![])
        .unwrap();
    assert_eq!(
        found,
        vec![hit("/project/a.txt", 3, "needle here"), hit("/project/a.txt", 4, "last needle")]
    );
}

#[test]
fn line_of_ten_thousand_characters_with_terminator_is_skipped() {
    let at_limit = format!("{}\n", "a".repeat(9_999));
    let over_limit = format!("{}\n", "a".repeat(10_000));
    let pattern = compile_pattern("a", false, true, false).unwrap();
    assert!(matches!(examine_line(&pattern, &at_limit), LineOutcome::Hit(_)));
    assert_eq!(examine_line(&pattern, &over_limit), LineOutcome::TooLong);
}

#[test]
fn only_the_line_terminator_is_removed_before_matching() {
    let pattern = compile_pattern("end $", true, true, false).unwrap();
    assert_eq!(examine_line(&pattern, "the end \n"), LineOutcome::Hit("the end".to_string()));
    assert_eq!(examine_line(&pattern, "the end \r\n"), LineOutcome::Hit("the end".to_string()));
    assert_eq!(examine_line(&pattern, "the end\n"), LineOutcome::Miss);
}

#[test]
fn binary_first_line_gives_no_hit_and_the_next_file_is_scanned() {
    let walked = vec![
        file("/project/blob.bin", "hello\0world\nhello again\n"),
        file("/project/b.txt", "hello moon"),
    ];
    let found = search_files(&request("hello"), &walked, &vec![]).unwrap();
    assert_eq!(found, vec![hit("/project/b.txt", 1, "hello moon")]);
}

#[test]
fn hits_before_a_binary_line_are_kept() {
    let walked = vec![file("/project/mixed", "hello one\nhello\0two\nhello three\n")];
    let found = search_files(&request("hello"), &walked, &vec![]).unwrap();
    assert_eq!(found, vec![hit("/project/mixed", 1, "hello one")]);
}

#[test]
fn matching_line_of_150_characters_is_cut() {
    let line = "hello".repeat(30);
    let found = search_files(&request("hello"), &vec![file("/project/a.txt", &line)], &vec![])
        .unwrap();
    assert_eq!(found.len(), 1);
    assert_eq!(found[0].line_content, format!("{}...", "hello".repeat(20)));
}

#[test]
fn search_stops_at_five_hundred_hits_in_the_middle_of_a_file() {
    let text = "hit\n".repeat(300);
    let walked = vec![
        file("/project/a.txt", &text),
        file("/project/b.txt", &text),
        file("/project/c.txt", &text),
    ];
    let found = search_files(&request("hit"), &walked, &vec![file("/other/d.txt", "hit")])
        .unwrap();
    assert_eq!(found.len(), 500);
    assert_eq!(found[299], hit("/project/a.txt", 300, "hit"));
    assert_eq!(found[499], hit("/project/b.txt", 200, "hit"));
}

#[test]
fn file_in_tree_and_in_additional_paths_is_searched_once() {
    let walked = vec![file("/project/a.txt", "hello world")];
    let extras = vec![file("/project/a.txt", "hello world"), file("/other/c.txt", "hello sun")];
    let found = search_files(&request("hello"), &walked, &extras).unwrap();
    assert_eq!(
        found,
        vec![hit("/project/a.txt", 1, "hello world"), hit("/other/c.txt", 1, "hello sun")]
    );
}

#[test]
fn paths_that_differ_in_separator_style_are_one_file() {
    let walked = vec![file("C:\\project\\a.txt", "hello world")];
    let extras = vec![file("C:/project/a.txt", "hello world")];
    let found = search_files(&request("hello"), &walked, &extras).unwrap();
    assert_eq!(found, vec![hit("C:\\project\\a.txt", 1, "hello world")]);
}

#[test]
fn additional_path_listed_twice_is_searched_once() {
    let extras = vec![file("/other/c.txt", "hello sun"), file("/other/c.txt", "hello sun")];
    let found = search_files(&request("hello"), &vec![], &extras).unwrap();
    assert_eq!(found, vec![hit("/other/c.txt", 1, "hello sun")]);
}

#[test]
fn empty_root_leaves_the_tree_alone() {
    let mut only_extras = request("hello");
    only_extras.path = String::new();
    let walked = vec![file("/project/a.txt", "hello world")];
    let extras = vec![file("/other/c.txt", "hello sun")];
    let found = search_files(&only_extras, &walked, &extras).unwrap();
    assert_eq!(found, vec![hit("/other/c.txt", 1, "hello sun")]);
}

#[test]
fn oversized_unsized_and_irregular_entries_are_passed_over() {
    let mut small = request("hello");
    small.max_file_size = 11;
    let mut directory = file("/project/dir", "hello dir");
    directory.probe.is_file = false;
    let mut unsized_file = file("/project/unknown", "hello unknown");
    unsized_file.probe.size = None;
    let mut unreadable = file("/project/locked", "hello locked");
    unreadable.text = None;
    let walked = vec![
        file("/project/big.txt", "hello world!"),
        directory,
        unsized_file,
        unreadable,
        file("/project/fits.txt", "hello world"),
    ];
    let found = search_files(&small, &walked, &vec![]).unwrap();
    assert_eq!(found, vec![hit("/project/fits.txt", 1, "hello world")]);
}

#[test]
fn invalid_pattern_fails_before_any_file_is_read() {
    let mut broken = request("foo(bar");
    broken.is_regex = true;
    let error = search_files(&broken, &vec![file("/project/a.txt", "foo(bar")], &vec![])
        .unwrap_err();
    assert!(matches!(error, SearchError::InvalidPattern { .. }));
    assert!(error.message().starts_with("Invalid regex: "));
    assert!(error.message().len() > "Invalid regex: ".len());
}

#[test]
fn literal_query_with_the_same_text_is_valid() {
    let found = search_files(&request("foo(bar"), &vec![file("/project/a.txt", "x foo(bar y")], &vec![])
        .unwrap();
    assert_eq!(found, vec![hit("/project/a.txt", 1, "x foo(bar y")]);
}

#[test]
fn session_is_fed_line_by_line() {
    let pattern = compile_pattern("todo", false, false, false).unwrap();
    let mut session = SearchSession::new(pattern, 100);
    let probe = FileProbe { path: "notes.md".to_string(), is_file: true, size: Some(40) };
    assert!(session.accept(&probe));
    assert!(session.on_read(LineRead::Line("# Notes\n")));
    assert!(session.on_read(LineRead::Line("- TODO: write\n")));
    assert!(!session.on_read(LineRead::End));
    assert!(!session.on_read(LineRead::Line("todo after the end\n")));
    assert!(!session.accept(&probe));
    let other = FileProbe { path: "other.md".to_string(), is_file: true, size: Some(4) };
    assert!(session.accept(&other));
    assert!(session.on_read(LineRead::Line("todo 1\n")));
    assert!(!session.on_read(LineRead::Failed));
    assert!(!session.is_full());
    assert_eq!(
        session.into_results(),
        vec![hit("notes.md", 2, "- TODO: write"), hit("other.md", 1, "todo 1")]
    );
}

#[test]
fn session_wants_no_further_line_once_the_budget_is_used_up() {
    let pattern = compile_pattern("x", false, false, false).unwrap();
    let mut session = SearchSession::new(pattern, 100);
    let probe = FileProbe { path: "many.txt".to_string(), is_file: true, size: Some(1) };
    assert!(session.accept(&probe));
    let mut fed = 0;
    while session.on_read(LineRead::Line("x\n")) {
        fed += 1;
        assert!(fed < 1000);
    }
    assert_eq!(fed, 499);
    assert!(session.is_full());
    let next = FileProbe { path: "next.txt".to_string(), is_file: true, size: Some(1) };
    assert!(!session.accept(&next));
    assert_eq!(session.into_results().len(), 500);
}

#[test]
fn search_fails_only_where_the_pattern_does_not_compile() {
    let mut literal = request("foo(bar[");
    assert!(search_files(&literal, &vec![], &vec![]).is_ok());
    assert!(SearchSession::start(&literal).is_ok());
    literal.is_regex = true;
    assert!(search_files(&literal, &vec![], &vec![]).is_err());
    assert!(SearchSession::start(&literal).is_err());
    let mut unreadable = file("/project/locked", "hello");
    unreadable.text = None;
    let mut missing = file("/project/gone", "hello");
    missing.probe.is_file = false;
    missing.probe.size = None;
    let binary = file("/project/blob", "\0hello");
    let found = search_files(&request("hello"), &vec![unreadable, missing, binary], &vec![]);
    assert_eq!(found.unwrap(), vec![]);
}
