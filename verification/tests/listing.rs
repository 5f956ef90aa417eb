use project_search::listing::{sort_entries, DirectoryEntry};

fn entry(name: &str, is_dir: bool) -> DirectoryEntry {
    DirectoryEntry { name: name.to_string(), path: format!("/root/{}", name), is_dir }
}

fn names(entries: &[DirectoryEntry]) -> Vec<&str> {
    entries.iter().map(|entry| entry.name.as_str()).collect()
}

#[test]
fn directories_come_first_then_names_without_regard_to_case() {
    let entries = vec![
        entry("zeta.txt", false),
        entry("Beta", true),
        entry("alpha.txt", false),
        entry("Gamma.txt", false),
        entry("alpha", true),
    ];
    let listed = sort_entries(&entries);
    assert_eq!(names(&listed), vec!["alpha", "Beta", "alpha.txt", "Gamma.txt", "zeta.txt"]);
    assert_eq!(listed[0], entry("alpha", true));
}

#[test]
fn names_that_differ_only_in_case_keep_their_order() {
    let entries = vec![entry("readme", false), entry("README", false), entry("Readme", false)];
    assert_eq!(names(&sort_entries(&entries)), vec!["readme", "README", "Readme"]);
}

#[test]
fn a_name_comes_after_its_own_beginning() {
    let entries = vec![entry("abc", false), entry("ab", false), entry("", false), entry("b", false)];
    assert_eq!(names(&sort_entries(&entries)), vec!["", "ab", "abc", "b"]);
}

#[test]
fn listing_agrees_with_the_standard_sort() {
    let raw = ["b", "A", "É", "é", "a10", "a2", "Z", "_x", "ß", "İ", "z", "B", "10", "9", "src"];
    let mut entries = Vec::new();
    for (i, name) in raw.iter().enumerate() {
        entries.push(entry(name, i % 3 == 0));
    }
    let mut expected = entries.clone();
    expected.sort_by(|a, b| {
        if a.is_dir == b.is_dir {
            a.name.to_lowercase().cmp(&b.name.to_lowercase())
        } else if a.is_dir {
            std::cmp::Ordering::Less
        } else {
            std::cmp::Ordering::Greater
        }
    });
    assert_eq!(sort_entries(&entries), expected);
}

#[test]
fn empty_listing_stays_empty() {
    assert_eq!(sort_entries(&vec![]), vec![]);
}
