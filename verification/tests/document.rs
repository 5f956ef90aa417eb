use project_search::document::{epoch_millis, file_stat, read_document, FileStat};
use project_search::watch::{
    is_announced, paths_to_announce, plan_unwatch, plan_watch, ChangeKind, WatchPlan,
};

#[test]
fn milliseconds_are_seconds_times_a_thousand_plus_whole_milliseconds() {
    assert_eq!(epoch_millis(0, 0), 0);
    assert_eq!(epoch_millis(1, 999_999), 1_000);
    assert_eq!(epoch_millis(1_700_000_000, 123_456_789), 1_700_000_000_123);
}

#[test]
fn milliseconds_wrap_where_64_bits_do_not_hold_them() {
    let secs = u64::MAX;
    let expected = ((secs as u128 * 1000 + 999) % (1u128 << 64)) as u64;
    assert_eq!(epoch_millis(secs, 999_999_999), expected);
    let duration = std::time::Duration::new(secs, 999_999_999);
    assert_eq!(epoch_millis(secs, 999_999_999), duration.as_millis() as u64);
}

#[test]
fn stat_keeps_path_and_size() {
    assert_eq!(
        file_stat("/a/b.txt".to_string(), 2, 5_000_000, 42),
        FileStat { path: "/a/b.txt".to_string(), last_modified: 2_005, size: 42 }
    );
}

#[test]
fn utf8_bytes_are_read_as_utf8() {
    let document = read_document("/a/b.txt".to_string(), "grüße, 世界".as_bytes(), 1, 0, 15);
    assert_eq!(document.path, "/a/b.txt");
    assert_eq!(document.encoding, "UTF-8");
    assert_eq!(document.content, "grüße, 世界");
    assert_eq!(document.stat.path, "/a/b.txt");
    assert_eq!(document.stat.last_modified, 1_000);
    assert_eq!(document.stat.size, 15);
}

#[test]
fn legacy_bytes_are_decoded_in_the_guessed_encoding() {
    let bytes = [0x63, 0x61, 0x66, 0xE9, 0x20, 0x63, 0x72, 0xE8, 0x6D, 0x65];
    let document = read_document("menu.txt".to_string(), &bytes, 0, 0, 10);
    assert_eq!(document.encoding, "windows-1252");
    assert_eq!(document.content, "café crème");
}

#[test]
fn byte_order_mark_is_left_out_of_the_text() {
    let bytes = [0xEF, 0xBB, 0xBF, 0x68, 0x69];
    let document = read_document("bom.txt".to_string(), &bytes, 0, 0, 5);
    assert_eq!(document.content, "hi");
}

#[test]
fn only_modifications_are_announced() {
    assert!(is_announced(ChangeKind::Modify));
    for kind in [
        ChangeKind::Any,
        ChangeKind::Access,
        ChangeKind::Create,
        ChangeKind::Remove,
        ChangeKind::Other,
    ] {
        assert!(!is_announced(kind));
        assert!(paths_to_announce(kind, vec!["a.txt".to_string()]).is_empty());
    }
    assert_eq!(
        paths_to_announce(ChangeKind::Modify, vec!["a.txt".to_string(), "b.txt".to_string()]),
        vec!["a.txt".to_string(), "b.txt".to_string()]
    );
}

#[test]
fn watcher_is_made_on_the_first_request() {
    let first = plan_watch(false, None, "a.txt", true);
    assert!(first.create_watcher);
    assert!(first.register_path);
    assert_eq!(first.release, None);
    assert_eq!(first.watched, Some("a.txt".to_string()));
}

#[test]
fn new_watch_takes_the_place_of_the_old_one() {
    let second = plan_watch(true, Some("a.txt".to_string()), "b.txt", true);
    assert_eq!(
        second,
        WatchPlan {
            create_watcher: false,
            release: Some("a.txt".to_string()),
            register_path: true,
            watched: Some("b.txt".to_string()),
        }
    );
}

#[test]
fn watching_the_same_path_again_releases_nothing() {
    let again = plan_watch(true, Some("a.txt".to_string()), "a.txt", true);
    assert_eq!(again.release, None);
    assert!(again.register_path);
    assert_eq!(again.watched, Some("a.txt".to_string()));
}

#[test]
fn path_that_does_not_exist_changes_nothing() {
    let missing = plan_watch(true, Some("a.txt".to_string()), "gone.txt", false);
    assert_eq!(
        missing,
        WatchPlan {
            create_watcher: false,
            release: None,
            register_path: false,
            watched: Some("a.txt".to_string()),
        }
    );
}

#[test]
fn unwatching_the_watched_path_leaves_none_watched() {
    assert_eq!(plan_unwatch(Some("a.txt".to_string()), "a.txt"), None);
    assert_eq!(plan_unwatch(Some("a.txt".to_string()), "b.txt"), Some("a.txt".to_string()));
    assert_eq!(plan_unwatch(None, "a.txt"), None);
}
