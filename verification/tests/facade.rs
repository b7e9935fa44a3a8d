use persist_facade::EntryInfo;
use persist_facade::PersistError;
use persist_facade::Store;
use persist_facade::composite_name;
use persist_facade::file_names;
use persist_facade::screenshot_data_uri;
use persist_facade::tally_stats;

#[test]
fn save_then_load_settings() {
    let mut store = Store::new();
    store.save_data("settings.json".to_string(), "{\"theme\":\"dark\"}".to_string());
    assert_eq!(store.load_data(&"settings.json".to_string()), "{\"theme\":\"dark\"}");
}

#[test]
fn load_unsaved_is_empty() {
    let store = Store::new();
    assert_eq!(store.load_data(&"never-saved.json".to_string()), "");
}

#[test]
fn save_data_overwrites() {
    let mut store = Store::new();
    store.save_data("note.txt".to_string(), "first".to_string());
    store.save_data("note.txt".to_string(), "second".to_string());
    assert_eq!(store.load_data(&"note.txt".to_string()), "second");
}

#[test]
fn empty_content_round_trip() {
    let mut store = Store::new();
    store.save_data("empty.txt".to_string(), "".to_string());
    assert_eq!(store.load_data(&"empty.txt".to_string()), "");
}

#[test]
fn save_screenshot_returns_composite_name() {
    let mut store = Store::new();
    let name = store.save_screenshot(
        "trade42".to_string(),
        "chart.png".to_string(),
        vec![0x89, 0x50, 0x4E, 0x47],
    );
    assert_eq!(name, "trade42_chart.png");
    let (count, total) = store.screenshot_stats();
    assert_eq!(count, 1);
    assert_eq!(total, 4);
}

#[test]
fn load_screenshot_yields_data_uri() {
    let mut store = Store::new();
    let name = store.save_screenshot(
        "trade42".to_string(),
        "chart.png".to_string(),
        vec![0x89, 0x50, 0x4E, 0x47],
    );
    assert_eq!(store.load_screenshot(&name), Ok("data:image/*;base64,iVBORw==".to_string()));
}

#[test]
fn base64_padding_cases() {
    assert_eq!(screenshot_data_uri(&vec![]), "data:image/*;base64,");
    assert_eq!(screenshot_data_uri(&b"h".to_vec()), "data:image/*;base64,aA==");
    assert_eq!(screenshot_data_uri(&b"hi".to_vec()), "data:image/*;base64,aGk=");
    assert_eq!(screenshot_data_uri(&b"hello world!".to_vec()), "data:image/*;base64,aGVsbG8gd29ybGQh");
}

#[test]
fn load_screenshot_missing_errors() {
    let store = Store::new();
    assert_eq!(store.load_screenshot(&"nobody_here.png".to_string()), Err(PersistError::NotFound));
}

#[test]
fn delete_screenshot_removes_name() {
    let mut store = Store::new();
    let kept = store.save_screenshot("t1".to_string(), "a.png".to_string(), vec![1, 2]);
    let gone = store.save_screenshot("t2".to_string(), "b.png".to_string(), vec![3]);
    assert_eq!(store.delete_screenshot(&gone), Ok(()));
    let names = store.list_screenshots();
    assert!(names.contains(&kept));
    assert!(!names.contains(&gone));
    assert_eq!(store.load_screenshot(&gone), Err(PersistError::NotFound));
}

#[test]
fn delete_missing_errors() {
    let mut store = Store::new();
    assert_eq!(store.delete_screenshot(&"absent.png".to_string()), Err(PersistError::NotFound));
}

#[test]
fn list_and_stats_after_distinct_saves() {
    let mut store = Store::new();
    let n1 = store.save_screenshot("t1".to_string(), "a.png".to_string(), vec![1, 2, 3]);
    let n2 = store.save_screenshot("t2".to_string(), "b.png".to_string(), vec![4]);
    let n3 = store.save_screenshot("t3".to_string(), "c.png".to_string(), vec![5, 6]);
    let mut names = store.list_screenshots();
    names.sort();
    let mut expected = vec![n1, n2, n3];
    expected.sort();
    assert_eq!(names, expected);
    assert_eq!(store.screenshot_stats(), (3, 6));
}

#[test]
fn overwrite_same_composite_name() {
    let mut store = Store::new();
    store.save_screenshot("t".to_string(), "x.png".to_string(), vec![1, 2, 3, 4, 5]);
    let name = store.save_screenshot("t".to_string(), "x.png".to_string(), vec![9]);
    assert_eq!(store.list_screenshots(), vec![name.clone()]);
    assert_eq!(store.screenshot_stats(), (1, 1));
    assert_eq!(store.load_screenshot(&name), Ok("data:image/*;base64,CQ==".to_string()));
}

#[test]
fn composite_name_joins_with_underscore() {
    assert_eq!(composite_name(&"trade7".to_string(), &"shot.png".to_string()), "trade7_shot.png");
}

#[test]
fn error_messages_are_flat_strings() {
    assert_eq!(PersistError::NotFound.message(), "no such file");
    assert_eq!(PersistError::Write.message(), "could not write the file");
    assert_eq!(
        PersistError::DirectoryResolution.message(),
        "could not resolve the application data directory"
    );
}

fn entry(name: &str, is_file: bool, size: u64) -> EntryInfo {
    EntryInfo { name: name.to_string(), is_file, size }
}

#[test]
fn file_names_excludes_directories() {
    let entries = vec![
        entry("t1_a.png", true, 10),
        entry("nested", false, 0),
        entry("t2_b.png", true, 20),
    ];
    assert_eq!(file_names(&entries), vec!["t1_a.png".to_string(), "t2_b.png".to_string()]);
}

#[test]
fn tally_stats_counts_files_only() {
    let entries = vec![
        entry("t1_a.png", true, 10),
        entry("nested", false, 999),
        entry("t2_b.png", true, 20),
    ];
    assert_eq!(tally_stats(&entries), Some((2, 30)));
}

#[test]
fn tally_stats_on_empty_listing() {
    assert_eq!(tally_stats(&vec![]), Some((0, 0)));
}

#[test]
fn tally_stats_overflow_is_none() {
    let entries = vec![entry("huge1", true, u64::MAX), entry("huge2", true, 1)];
    assert_eq!(tally_stats(&entries), None);
}
