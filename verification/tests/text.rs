use project_search::text::{
    char_is_whitespace, display_snippet, normalized_path, split_raw_lines, to_chars, trim_text,
};

#[test]
fn whitespace_is_what_the_standard_library_calls_whitespace() {
    let mut code: u32 = 0;
    while code <= 0x10FFFF {
        if let Some(c) = char::from_u32(code) {
            assert_eq!(char_is_whitespace(c), c.is_whitespace(), "U+{:04X}", code);
        }
        code += 1;
    }
}

#[test]
fn trim_text_agrees_with_the_standard_library() {
    let samples = [
        "",
        " ",
        "\t\n",
        "  hello  ",
        "hello",
        "\u{3000}wide\u{00A0}",
        " a b \r\n",
        "x\u{200B}",
        "\u{2028}line\u{2029}",
    ];
    for sample in samples {
        assert_eq!(trim_text(sample), sample.trim());
    }
}

#[test]
fn to_chars_keeps_every_character() {
    assert_eq!(to_chars("aé越"), vec!['a', 'é', '越']);
    assert_eq!(to_chars(""), Vec::<char>::new());
}

#[test]
fn short_line_is_shown_whole() {
    assert_eq!(display_snippet("   let x = 1;  "), "let x = 1;");
    let exactly = "y".repeat(100);
    assert_eq!(display_snippet(&exactly), exactly);
}

#[test]
fn long_line_is_cut_after_one_hundred_characters() {
    let line = "x".repeat(150);
    let expected = format!("{}...", "x".repeat(100));
    assert_eq!(display_snippet(&line), expected);
}

#[test]
fn snippet_counts_characters_not_bytes() {
    let line = "é".repeat(101);
    let expected = format!("{}...", "é".repeat(100));
    assert_eq!(display_snippet(&line), expected);
    let fits = "é".repeat(100);
    assert_eq!(display_snippet(&fits), fits);
}

#[test]
fn separators_are_normalized_to_backslashes() {
    assert_eq!(normalized_path("src/app/main.rs"), "src\\app\\main.rs");
    assert_eq!(normalized_path("C:\\work/notes.txt"), "C:\\work\\notes.txt");
    assert_eq!(normalized_path(""), "");
}

#[test]
fn raw_lines_keep_their_terminators() {
    assert_eq!(split_raw_lines("a\nb\r\nc"), vec!["a\n", "b\r\n", "c"]);
    assert_eq!(split_raw_lines("a\n"), vec!["a\n"]);
    assert_eq!(split_raw_lines("\n\n"), vec!["\n", "\n"]);
    assert_eq!(split_raw_lines(""), Vec::<String>::new());
}

#[test]
fn raw_lines_agree_with_the_standard_library() {
    let samples = ["", "one", "one\n", "one\ntwo", "\n", "a\r\nb\rc\n\n", "é\n越"];
    for sample in samples {
        let expected: Vec<&str> = sample.split_inclusive('\n').collect();
        assert_eq!(split_raw_lines(sample), expected);
    }
}
