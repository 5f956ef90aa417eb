use project_search::filter::{
    build_filter, build_filter_rules, filter_from, load_filter_rules, make_exclude_rule,
    make_include_rule,
};
use std::path::Path;

fn strings(items: &[&str]) -> Vec<String> {
    items.iter().map(|item| item.to_string()).collect()
}

#[test]
fn built_in_exclusions_come_first() {
    assert_eq!(
        build_filter_rules(&vec![], &vec![]),
        strings(&[
            "!**/node_modules/**",
            "!**/.git/**",
            "!**/target/**",
            "!**/dist/**",
            "!**/build/**",
            "!**/.idea/**",
            "!**/.vscode/**",
        ])
    );
}

#[test]
fn fragments_are_trimmed_and_blank_ones_are_left_out() {
    let lines = build_filter_rules(&strings(&[" vendor ", "", "   ", "out"]), &strings(&["\t", " *.rs"]));
    assert_eq!(lines.len(), 10);
    assert_eq!(&lines[7..], &strings(&["!**/vendor/**", "!**/out/**", "**/*.rs"])[..]);
}

#[test]
fn one_rule_for_one_name() {
    assert_eq!(make_exclude_rule("vendor"), "!**/vendor/**");
    assert_eq!(make_include_rule("*.md"), "**/*.md");
}

#[test]
fn built_in_exclusions_hold_whatever_the_caller_asks() {
    let filter = build_filter("/project", &vec![], &vec![]).unwrap();
    assert!(filter.matched(Path::new("/project/node_modules/pkg/index.js"), false).is_ignore());
    assert!(filter.matched(Path::new("/project/sub/.git/config"), false).is_ignore());
    assert!(!filter.matched(Path::new("/project/src/main.rs"), false).is_ignore());
}

#[test]
fn excluded_directory_is_excluded_anywhere_in_the_tree() {
    let filter = build_filter("/project", &strings(&["vendor"]), &vec![]).unwrap();
    assert!(filter.matched(Path::new("/project/vendor/lib.rs"), false).is_ignore());
    assert!(filter.matched(Path::new("/project/a/b/vendor/lib.rs"), false).is_ignore());
    assert!(!filter.matched(Path::new("/project/src/vendor.rs"), false).is_ignore());
}

#[test]
fn with_an_include_only_matching_files_are_considered() {
    let filter = build_filter("/project", &vec![], &strings(&["*.rs"])).unwrap();
    assert!(filter.matched(Path::new("/project/src/main.rs"), false).is_whitelist());
    assert!(filter.matched(Path::new("/project/README.md"), false).is_ignore());
    assert!(filter.matched(Path::new("/project/target/debug/app.bin"), false).is_ignore());
}

#[test]
fn malformed_fragment_is_dropped_and_the_others_stand() {
    let filter = build_filter("/project", &strings(&["[", "vendor"]), &strings(&["{a", "*.rs"]))
        .unwrap();
    assert_eq!(filter.num_ignores(), 8);
    assert_eq!(filter.num_whitelists(), 1);
    assert!(filter.matched(Path::new("/project/vendor/notes.txt"), false).is_ignore());
    assert!(filter.matched(Path::new("/project/src/main.rs"), false).is_whitelist());
}

#[test]
fn builder_holds_the_lines_that_parse() {
    let builder = load_filter_rules("/project", &strings(&["[", "vendor"]), &strings(&["*.rs"]));
    let built = builder.build().unwrap();
    assert_eq!(built.num_ignores(), 8);
    assert_eq!(built.num_whitelists(), 1);
}

#[test]
fn failed_build_gives_no_filter() {
    let failed = Err(ignore::Error::Glob { glob: None, err: "too large".to_string() });
    assert!(filter_from(failed).is_none());
    let built = ignore::overrides::OverrideBuilder::new("/project").build();
    let filter = filter_from(built).unwrap();
    assert!(filter.is_empty());
}
